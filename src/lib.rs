//! Alias reminders: normalizes loosely shaped alias records and finds the
//! most specific alias whose expansion a typed command begins with.
pub mod registry;
pub mod resolver;
pub mod reminder;
