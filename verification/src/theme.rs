//! The color palette choice. The palettes themselves are presentation and
//! live with the renderer; the core only tracks which one is active.

use vstd::prelude::*;

verus! {

/// Which palette is currently active.
#[derive(Debug, Clone, Copy, PartialEq, Eq, Structural)]
pub enum ThemeMode {
    Dark,
    Light,
}

impl ThemeMode {
    /// Switch between the dark and light palettes.
    pub fn toggle(&mut self)
        ensures
            *old(self) is Dark ==> *final(self) is Light,
            *old(self) is Light ==> *final(self) is Dark,
    {
        *self = match *self {
            ThemeMode::Dark => ThemeMode::Light,
            ThemeMode::Light => ThemeMode::Dark,
        };
    }
}

} // verus!
