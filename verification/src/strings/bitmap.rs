use vstd::prelude::*;

verus! {

/// The label above the display controls.
pub fn display_label() -> (r: &'static str)
    ensures
        r@ == "Oncologia Cl\u{ed}nica - HC FMRP - USP"@,
{
    "Oncologia Cl\u{ed}nica - HC FMRP - USP"
}

/// The title of the dialog that picks the signature image file.
pub fn file_select_title() -> (r: &'static str)
    ensures
        r@ == "Selecione a imagem contendo a assinatura"@,
{
    "Selecione a imagem contendo a assinatura"
}

/// The name of the image file filter.
pub fn file_select_filter_image() -> (r: &'static str)
    ensures
        r@ == "Arquivos de imagem"@,
{
    "Arquivos de imagem"
}

/// The name of the catch-all file filter.
pub fn file_select_filter_all() -> (r: &'static str)
    ensures
        r@ == "Todos os arquivos"@,
{
    "Todos os arquivos"
}

/// The label of the cancel button.
pub fn cancel_btn() -> (r: &'static str)
    ensures
        r@ == "Cancelar"@,
{
    "Cancelar"
}

/// The label of the button that paints the signature on the screen.
pub fn display_paint_btn() -> (r: &'static str)
    ensures
        r@ == "Assinar"@,
{
    "Assinar"
}

/// The title of the bitmap printing window.
pub fn title() -> (r: &'static str)
    ensures
        r@ == "Assinatura contida no arquivo"@,
{
    "Assinatura contida no arquivo"
}

} // verus!
