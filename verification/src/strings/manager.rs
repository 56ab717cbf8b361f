use vstd::prelude::*;

verus! {

/// The title of the tablet management window.
pub fn title() -> (r: &'static str)
    ensures
        r@ == "Assinatura para Termo de Consentimento"@,
{
    "Assinatura para Termo de Consentimento"
}

/// The label of the help button.
pub fn help_btn() -> (r: &'static str)
    ensures
        r@ == "Ajuda"@,
{
    "Ajuda"
}

/// The label of the button that loads a signature from an image file.
pub fn bitmap_upload_btn() -> (r: &'static str)
    ensures
        r@ == "Usar Imagem"@,
{
    "Usar Imagem"
}

/// The help text with the signature collection instructions.
pub fn help() -> (r: &'static str)
    ensures
        r@
            == "Instru\u{e7}\u{f5}es para coleta de assinatura.\n\n1) No TLCE digital, clique em \"Adicionar Assinatura\";\n2) Solicite ao paciente que assine no dispositivo;\n3) V\u{e1} para a janela do TCLE e clique em Assinar;\n4) Selecione a \u{e1}rea de assinatura;\n5) Aperte a Tecla 'e' para adicionar a assinatura;\n6) Clique em \"Salvar Assinatura\" no TCLE digital."@,
{
    "Instru\u{e7}\u{f5}es para coleta de assinatura.\n\n1) No TLCE digital, clique em \"Adicionar Assinatura\";\n2) Solicite ao paciente que assine no dispositivo;\n3) V\u{e1} para a janela do TCLE e clique em Assinar;\n4) Selecione a \u{e1}rea de assinatura;\n5) Aperte a Tecla 'e' para adicionar a assinatura;\n6) Clique em \"Salvar Assinatura\" no TCLE digital."
}

/// The label of the button that clears the display.
pub fn display_clear_btn() -> (r: &'static str)
    ensures
        r@ == "Limpar"@,
{
    "Limpar"
}

/// The label of the button that paints the signature on the screen.
pub fn display_paint_btn() -> (r: &'static str)
    ensures
        r@ == "Assinar"@,
{
    "Assinar"
}

/// The label above the display controls.
pub fn display_label() -> (r: &'static str)
    ensures
        r@ == "Oncologia Cl\u{ed}nica - HC FMRP - USP"@,
{
    "Oncologia Cl\u{ed}nica - HC FMRP - USP"
}

} // verus!
