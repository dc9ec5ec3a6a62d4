//! What the operations of the library are for, in terms of what goes into them
//! and what comes out: every statement here speaks of the contract of an
//! executable function, on any inputs, in plain numbers, bytes and characters.

pub mod audio;
pub mod bytes;
pub mod flash;
pub mod gadget;
pub mod page;
pub mod queue;
pub mod registers;
pub mod settings;
pub mod text;
pub mod unit;
pub mod usb;
pub mod usbip;
