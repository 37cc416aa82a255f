use crate::interconnect::Interconnect;
use crate::nvc::{step_spec, CoreError, Nvc};
use crate::rom::{ConfigurationError, Rom};
use vstd::prelude::*;

verus! {

/// A whole machine: the processor and the bus it runs against.
pub struct AVB {
    pub interconnect: Interconnect,
    pub cpu: Nvc,
}

impl AVB {
    pub open spec fn wf(&self) -> bool {
        self.interconnect.wf() && self.cpu.wf()
    }

    /// A machine in its power-on state with `rom` mapped as the program image;
    /// fails where the bus refuses the image.
    pub fn new(rom: Rom) -> (r: Result<AVB, ConfigurationError>)
        ensures
            match Interconnect::new_result(rom@) {
                Err(e) => r == Err::<AVB, ConfigurationError>(e),
                Ok(regions) => r.is_ok() && r.unwrap().wf() && r.unwrap().interconnect@ == regions
                    && r.unwrap().cpu@ == Nvc::reset_state(),
            },
    {
        let interconnect = Interconnect::new(rom)?;
        Ok(AVB { interconnect, cpu: Nvc::new() })
    }

    /// Runs one instruction of the processor against the bus.
    pub fn step(&mut self) -> (r: Result<(), CoreError>)
        requires
            old(self).wf(),
            old(self).cpu@.cycles + 3 <= u64::MAX,
        ensures
            final(self).wf(),
            step_spec(
                old(self).cpu@,
                old(self).interconnect@,
                final(self).cpu@,
                final(self).interconnect@,
                r,
            ),
    {
        self.cpu.step(&mut self.interconnect)
    }
}

} // verus!
