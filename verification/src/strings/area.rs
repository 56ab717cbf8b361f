use vstd::prelude::*;

verus! {

/// The usage tip shown while a screen region is being selected.
pub fn tip() -> (r: &'static str)
    ensures
        r@
            == "Selecione uma regiao clicando e arrastando em qualquer parte da tela. Pressione 'e' para confirmar a regiao selecionada e 'q' para cancelar."@,
{
    "Selecione uma regiao clicando e arrastando em qualquer parte da tela. Pressione 'e' para confirmar a regiao selecionada e 'q' para cancelar."
}

} // verus!
