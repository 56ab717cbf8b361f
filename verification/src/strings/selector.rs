use vstd::prelude::*;

verus! {

/// The title of the device selection window.
pub fn title() -> (r: &'static str)
    ensures
        r@ == "Assinatura para Termo de Consentimento"@,
{
    "Assinatura para Termo de Consentimento"
}

/// The prompt asking for the device to connect to.
pub fn description() -> (r: &'static str)
    ensures
        r@ == "Selecione o dispositivo ao qual deseja se conectar."@,
{
    "Selecione o dispositivo ao qual deseja se conectar."
}

/// The label of the cancel button.
pub fn cancel() -> (r: &'static str)
    ensures
        r@ == "Cancelar"@,
{
    "Cancelar"
}

/// The label of the connect button.
pub fn accept() -> (r: &'static str)
    ensures
        r@ == "Conectar"@,
{
    "Conectar"
}

} // verus!
