//! Which language features are switched on.

use vstd::prelude::*;

verus! {

#[derive(Debug, Clone, Copy)]
pub struct LanguageConfig {
    pub calculator_enabled: bool,
    pub variables_enabled: bool,
    pub steps_enabled: bool,
    pub equations_enabled: bool,
    pub units_enabled: bool,
    pub ide_api_enabled: bool,
}

impl Default for LanguageConfig {
    /// Everything but the IDE interface, which is for a later phase.
    fn default() -> (c: Self)
        ensures
            c.calculator_enabled && c.variables_enabled && c.steps_enabled && c.equations_enabled
                && c.units_enabled && !c.ide_api_enabled,
    {
        Self {
            calculator_enabled: true,
            variables_enabled: true,
            steps_enabled: true,
            equations_enabled: true,
            units_enabled: true,
            ide_api_enabled: false,
        }
    }
}

} // verus!
