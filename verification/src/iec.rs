//! The IEC serial bus: three open-collector lines between computer and drive.
//!
//! Each line is held high by a pull-up resistor, and any device can pull it low. The state of a
//! line is therefore the logical OR of what the devices do. In a port register a written 1 pulls
//! the line low, and a read 0 says that it is low.
use vstd::prelude::*;

verus! {

/// Who pulls which line low.
#[derive(Debug, Clone, Copy, PartialEq, Eq, Structural)]
pub struct IecBus {
    /// The computer pulls ATN.
    pub c64_atn: bool,
    /// The computer pulls CLK.
    pub c64_clk: bool,
    /// The computer pulls DATA.
    pub c64_data: bool,
    /// The drive pulls CLK.
    pub drive_clk: bool,
    /// The drive pulls DATA.
    pub drive_data: bool,
    /// The drive has acknowledged ATN. Until it has, its hardware pulls DATA low by itself while
    /// ATN is low, which tells the computer that a device is there.
    pub drive_atna: bool,
}

/// A bus on which nobody pulls.
pub open spec fn idle_bus() -> IecBus {
    IecBus {
        c64_atn: false,
        c64_clk: false,
        c64_data: false,
        drive_clk: false,
        drive_data: false,
        drive_atna: false,
    }
}

impl Default for IecBus {
    fn default() -> (r: Self)
        ensures
            r == idle_bus(),
    {
        IecBus {
            c64_atn: false,
            c64_clk: false,
            c64_data: false,
            drive_clk: false,
            drive_data: false,
            drive_atna: false,
        }
    }
}

impl IecBus {
    /// ATN is low.
    pub open spec fn atn(self) -> bool {
        self.c64_atn
    }

    /// CLK is low.
    pub open spec fn clk(self) -> bool {
        self.c64_clk || self.drive_clk
    }

    /// DATA is low.
    pub open spec fn data(self) -> bool {
        self.c64_data || self.drive_data || (self.atn() && !self.drive_atna)
    }

    /// A bus for computer and drive to share, with all lines released. Whoever holds the drive
    /// holds the bus; the computer's side is set through it.
    pub fn new_shared() -> (r: IecBus)
        ensures
            r == idle_bus(),
    {
        IecBus::default()
    }

    /// ATN is low.
    pub fn atn_low(&self) -> (r: bool)
        ensures
            r == self.atn(),
    {
        self.c64_atn
    }

    /// CLK is low.
    pub fn clk_low(&self) -> (r: bool)
        ensures
            r == self.clk(),
    {
        self.c64_clk || self.drive_clk
    }

    /// DATA is low.
    pub fn data_low(&self) -> (r: bool)
        ensures
            r == self.data(),
    {
        let auto_data = self.atn_low() && !self.drive_atna;
        self.c64_data || self.drive_data || auto_data
    }
}

/// A line that either end pulls is low, and one that nobody pulls is high.
pub proof fn lines_are_wired_or(b: IecBus)
    ensures
        b.c64_clk ==> b.clk(),
        b.drive_clk ==> b.clk(),
        !b.c64_clk && !b.drive_clk ==> !b.clk(),
        b.c64_data ==> b.data(),
        b.drive_data ==> b.data(),
        b.drive_atna && !b.c64_data && !b.drive_data ==> !b.data(),
        !b.c64_atn && !b.c64_data && !b.drive_data ==> !b.data(),
{
}

/// A drive that has not acknowledged ATN answers it at once, whatever it does with DATA; once it
/// has acknowledged, DATA is low only if somebody pulls it.
pub proof fn drive_answers_atn(b: IecBus)
    requires
        b.atn(),
    ensures
        !b.drive_atna ==> b.data(),
        b.drive_atna ==> b.data() == (b.c64_data || b.drive_data),
{
}

/// Each line is low exactly when somebody pulls it: ATN the computer alone, CLK either end, DATA
/// either end or the hardware of a drive that has not acknowledged ATN.
pub proof fn lines_are_low_when_pulled(b: IecBus)
    ensures
        b.atn() <==> b.c64_atn,
        b.clk() <==> b.c64_clk || b.drive_clk,
        b.data() <==> b.c64_data || b.drive_data || (b.c64_atn && !b.drive_atna),
        !idle_bus().atn() && !idle_bus().clk() && !idle_bus().data(),
{
}

} // verus!
