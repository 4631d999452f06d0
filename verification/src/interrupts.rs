use vstd::prelude::*;

verus! {

/// First hardware interrupt vector of the primary interrupt controller,
/// placed just after the 32 CPU exception vectors.
pub const PIC_1_OFFSET: u8 = 32;

/// First hardware interrupt vector of the secondary interrupt controller.
pub const PIC_2_OFFSET: u8 = PIC_1_OFFSET + 8;

/// The hardware interrupt lines, in vector order starting at
/// `PIC_1_OFFSET`.
#[derive(Debug, Clone, Copy, PartialEq, Eq, Structural)]
pub enum InterruptIndex {
    Timer,
    Keyboard,
    PIC2,
    SerialPort2,
    SerialPort1,
    ParallelPort2Or3,
    FloppyDisk,
    ParallelPort1,
    RTC,
    ACPI,
    Reserved1,
    Reserved2,
    Mouse,
    FPU,
    PrimaryATAHardDisk,
    SecondaryATAHardDisk,
}

impl InterruptIndex {
    /// The interrupt vector number of this line.
    pub open spec fn vector(self) -> u8 {
        match self {
            InterruptIndex::Timer => 32,
            InterruptIndex::Keyboard => 33,
            InterruptIndex::PIC2 => 34,
            InterruptIndex::SerialPort2 => 35,
            InterruptIndex::SerialPort1 => 36,
            InterruptIndex::ParallelPort2Or3 => 37,
            InterruptIndex::FloppyDisk => 38,
            InterruptIndex::ParallelPort1 => 39,
            InterruptIndex::RTC => 40,
            InterruptIndex::ACPI => 41,
            InterruptIndex::Reserved1 => 42,
            InterruptIndex::Reserved2 => 43,
            InterruptIndex::Mouse => 44,
            InterruptIndex::FPU => 45,
            InterruptIndex::PrimaryATAHardDisk => 46,
            InterruptIndex::SecondaryATAHardDisk => 47,
        }
    }

    pub fn as_u8(self) -> (v: u8)
        ensures
            v == self.vector(),
    {
        match self {
            InterruptIndex::Timer => 32,
            InterruptIndex::Keyboard => 33,
            InterruptIndex::PIC2 => 34,
            InterruptIndex::SerialPort2 => 35,
            InterruptIndex::SerialPort1 => 36,
            InterruptIndex::ParallelPort2Or3 => 37,
            InterruptIndex::FloppyDisk => 38,
            InterruptIndex::ParallelPort1 => 39,
            InterruptIndex::RTC => 40,
            InterruptIndex::ACPI => 41,
            InterruptIndex::Reserved1 => 42,
            InterruptIndex::Reserved2 => 43,
            InterruptIndex::Mouse => 44,
            InterruptIndex::FPU => 45,
            InterruptIndex::PrimaryATAHardDisk => 46,
            InterruptIndex::SecondaryATAHardDisk => 47,
        }
    }

    pub fn as_usize(self) -> (v: usize)
        ensures
            v == self.vector(),
    {
        self.as_u8() as usize
    }
}

} // verus!
