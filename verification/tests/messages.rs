use signpad::strings;

#[test]
fn window_titles_are_stable() {
    assert_eq!(strings::manager::title(), "Assinatura para Termo de Consentimento");
    assert_eq!(strings::selector::title(), "Assinatura para Termo de Consentimento");
    assert_eq!(strings::bitmap::title(), "Assinatura contida no arquivo");
    assert_eq!(strings::errors::title(), "Erro");
}

#[test]
fn button_labels_are_stable() {
    assert_eq!(strings::manager::help_btn(), "Ajuda");
    assert_eq!(strings::manager::bitmap_upload_btn(), "Usar Imagem");
    assert_eq!(strings::manager::display_clear_btn(), "Limpar");
    assert_eq!(strings::manager::display_paint_btn(), "Assinar");
    assert_eq!(strings::selector::cancel(), "Cancelar");
    assert_eq!(strings::selector::accept(), "Conectar");
    assert_eq!(strings::bitmap::cancel_btn(), "Cancelar");
    assert_eq!(strings::bitmap::display_paint_btn(), "Assinar");
}

#[test]
fn prompts_are_stable() {
    assert_eq!(
        strings::selector::description(),
        "Selecione o dispositivo ao qual deseja se conectar."
    );
    assert_eq!(
        strings::bitmap::file_select_title(),
        "Selecione a imagem contendo a assinatura"
    );
    assert_eq!(strings::bitmap::file_select_filter_image(), "Arquivos de imagem");
    assert_eq!(strings::bitmap::file_select_filter_all(), "Todos os arquivos");
    assert_eq!(
        strings::manager::display_label(),
        "Oncologia Clínica - HC FMRP - USP"
    );
    assert!(strings::area::tip().contains("'e'"));
    assert!(strings::manager::help().contains("Adicionar Assinatura"));
}

#[test]
fn error_messages_are_stable() {
    assert_eq!(
        strings::errors::no_tablets_available(),
        "Não há dispositivos de entrada de assinatura disponíveis neste sistema"
    );
    assert_eq!(strings::errors::invalid_file(), "O arquivo selecionado é inválido");
    assert_eq!(strings::errors::file_not_found(), "O arquivo não foi encontrado");
}
