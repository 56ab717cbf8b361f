use vstd::prelude::*;

verus! {

/// The title of error message boxes.
pub fn title() -> (r: &'static str)
    ensures
        r@ == "Erro"@,
{
    "Erro"
}

/// The message shown when no signature input devices are attached.
pub fn no_tablets_available() -> (r: &'static str)
    ensures
        r@ == "N\u{e3}o h\u{e1} dispositivos de entrada de assinatura dispon\u{ed}veis neste sistema"@,
{
    "N\u{e3}o h\u{e1} dispositivos de entrada de assinatura dispon\u{ed}veis neste sistema"
}

/// The message shown when the selected file is not a usable image.
pub fn invalid_file() -> (r: &'static str)
    ensures
        r@ == "O arquivo selecionado \u{e9} inv\u{e1}lido"@,
{
    "O arquivo selecionado \u{e9} inv\u{e1}lido"
}

/// The message shown when the selected file does not exist.
pub fn file_not_found() -> (r: &'static str)
    ensures
        r@ == "O arquivo n\u{e3}o foi encontrado"@,
{
    "O arquivo n\u{e3}o foi encontrado"
}

} // verus!
