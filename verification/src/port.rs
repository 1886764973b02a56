//! Serial ports.

use vstd::prelude::*;

verus! {

/// What a serial port is attached to.
#[derive(Debug, Clone, Copy, PartialEq, Eq, Structural)]
pub enum PortType {
    Usb,
    Pci,
    Bluetooth,
    Unknown,
}

/// The short name of what a serial port is attached to.
pub fn describe_port_type(port_type: &PortType) -> (name: &'static str)
    ensures
        name@ == match *port_type {
            PortType::Usb => "USB"@,
            PortType::Pci => "PCI"@,
            PortType::Bluetooth => "BT"@,
            PortType::Unknown => "UNKNOWN"@,
        },
{
    match port_type {
        PortType::Usb => "USB",
        PortType::Pci => "PCI",
        PortType::Bluetooth => "BT",
        PortType::Unknown => "UNKNOWN",
    }
}

} // verus!
