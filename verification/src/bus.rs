//! The controller's transport, kept behind a type whose only register operations record what
//! they did: no transfer can reach the controller without entering the record.

use vstd::prelude::*;
use crate::fanconnect::{allowed_write, Access, Transport, TransportError};

verus! {

/// A transport together with the record of every register transfer made through it.
pub(crate) struct LoggedBus {
    transport: Box<dyn Transport>,
    log: Ghost<Seq<Access>>,
}

impl LoggedBus {
    /// Every register transfer made through this bus so far, in order.
    pub(crate) closed spec fn accesses(&self) -> Seq<Access> {
        self.log@
    }

    /// A bus over `transport` with nothing transferred yet.
    pub(crate) fn new(transport: Box<dyn Transport>) -> (b: LoggedBus)
        ensures
            b.accesses() == Seq::<Access>::empty(),
    {
        LoggedBus { transport, log: Ghost(Seq::empty()) }
    }

    /// Reads one register.
    pub(crate) fn read(&mut self, reg: u8) -> (r: Result<u8, TransportError>)
        ensures
            match r {
                Ok(v) => final(self).accesses() == old(self).accesses().push(Access::Read(reg, v)),
                Err(_) => final(self).accesses() == old(self).accesses().push(Access::ReadFailed(reg)),
            },
    {
        let r = self.transport.read(reg);
        match r {
            Ok(v) => {
                self.log = Ghost(self.log@.push(Access::Read(reg, v)));
            },
            Err(_) => {
                self.log = Ghost(self.log@.push(Access::ReadFailed(reg)));
            },
        }
        r
    }

    /// Writes one register; only the writes the controller is allowed to make.
    pub(crate) fn write(&mut self, reg: u8, value: u8) -> (r: Result<(), TransportError>)
        requires
            allowed_write(reg, value),
        ensures
            match r {
                Ok(()) => final(self).accesses() == old(self).accesses().push(
                    Access::Write(reg, value),
                ),
                Err(_) => final(self).accesses() == old(self).accesses().push(
                    Access::WriteFailed(reg, value),
                ),
            },
    {
        let r = self.transport.write(reg, value);
        match r {
            Ok(()) => {
                self.log = Ghost(self.log@.push(Access::Write(reg, value)));
            },
            Err(_) => {
                self.log = Ghost(self.log@.push(Access::WriteFailed(reg, value)));
            },
        }
        r
    }
}

} // verus!
