use vstd::prelude::*;

verus! {

/// One byte written to an I/O port.
#[derive(Clone, Copy, Debug, PartialEq, Eq, Structural)]
pub struct PortWrite {
    pub port: u16,
    pub value: u8,
}

impl PortWrite {
    pub fn new(port: u16, value: u8) -> (r: PortWrite)
        ensures
            r.port == port,
            r.value == value,
    {
        PortWrite { port, value }
    }
}

} // verus!
