//! The decisions the runtime takes before a source is run: which features a
//! source may use, and whether it is a single expression or a program.

use vstd::prelude::*;

use crate::config::LanguageConfig;
use crate::error::{evaluation_error, Numora};
use crate::modes::context::{execution_mode_of, ModeContext};
use crate::modes::executor::{target_of, ExecutionTarget, ModeExecutor};
use crate::modes::pipeline::{
    all_known, first_misplaced_from, first_unknown_from, misplaced_mode_message, normalize_modes,
    unknown_mode_message, well_ordered, ModePipeline,
};
use crate::program::{detect_run_modes, requested_modes};
use crate::text::{
    chars_of, contains, contains_chars, starts_with, starts_with_chars, string_from, trim,
    trim_chars,
};

verus! {

/// Why `config` refuses `source`, if it does: units need the units feature
/// and `@run ide` needs the IDE interface.
pub open spec fn feature_error(config: LanguageConfig, source: Seq<char>) -> Option<Seq<char>> {
    if contains(source, "unit:"@) && !config.units_enabled {
        Some("Units feature is disabled"@)
    } else if contains(source, "@run ide"@) && !config.ide_api_enabled {
        Some("IDE API feature is disabled"@)
    } else {
        None
    }
}

/// A source is run as one expression when it is a single non-empty line
/// that is not a `@run` line and names no section.
pub open spec fn is_direct_expression(source: Seq<char>) -> bool {
    let t = trim(source);
    &&& t.len() > 0
    &&& !contains(t, seq!['\n'])
    &&& !starts_with(t, "@run"@)
    &&& !contains(t, "given:"@)
    &&& !contains(t, "formula:"@)
    &&& !contains(t, "find:"@)
}

/// The checked mode list of a source, or the message of the first problem
/// with the modes its `@run` line names.
pub open spec fn modes_outcome(source: Seq<char>) -> Result<Seq<Seq<char>>, Seq<char>> {
    let n = normalize_modes(requested_modes(source));
    if !all_known(n) {
        Err(unknown_mode_message(n[first_unknown_from(n, 0)]))
    } else if !well_ordered(n) {
        Err(misplaced_mode_message(n[first_misplaced_from(n, 0)]))
    } else {
        Ok(n)
    }
}

/// How a source that the features allow is run.
#[derive(Debug, Clone, Copy, PartialEq, Eq, Structural)]
pub enum Route {
    /// Evaluated as one expression.
    Direct,
    /// Read as a program: its includes are expanded, then its modes decide.
    Program,
}

/// Runs sources with the features of its configuration.
pub struct Runtime {
    config: LanguageConfig,
}

impl Runtime {
    pub fn new(config: LanguageConfig) -> (r: Self)
        ensures
            r.settings() == config,
    {
        Self { config }
    }

    /// The features this runtime was made with.
    pub closed spec fn settings(&self) -> LanguageConfig {
        self.config
    }

    pub fn config(&self) -> (c: LanguageConfig)
        ensures
            c == self.settings(),
    {
        self.config
    }

    /// Refuses a source that uses a feature this runtime has switched off.
    pub fn validate_feature_access(&self, source: &str) -> (r: Result<(), Numora>)
        ensures
            match feature_error(self.settings(), source@) {
                Some(m) => evaluation_error(r, m),
                None => r is Ok,
            },
    {
        let v = chars_of(source);
        let unit = chars_of("unit:");
        let ide = chars_of("@run ide");
        if contains_chars(&v, &unit) && !self.config.units_enabled {
            return Err(Numora::EvaluationError(string_from("Units feature is disabled")));
        }
        if contains_chars(&v, &ide) && !self.config.ide_api_enabled {
            return Err(Numora::EvaluationError(string_from("IDE API feature is disabled")));
        }
        Ok(())
    }

    /// The first decisions on a source: it is refused when it uses a feature
    /// that is switched off, else run directly or as a program.
    pub fn route(&self, source: &str) -> (r: Result<Route, Numora>)
        ensures
            match feature_error(self.settings(), source@) {
                Some(m) => evaluation_error(r, m),
                None => r == Ok::<Route, Numora>(
                    if is_direct_expression(source@) {
                        Route::Direct
                    } else {
                        Route::Program
                    },
                ),
            },
    {
        self.validate_feature_access(source)?;
        if self.looks_like_direct_expression(source) {
            Ok(Route::Direct)
        } else {
            Ok(Route::Program)
        }
    }

    /// The modes a program (its includes already expanded) runs with, and the
    /// runner its execution mode selects.
    pub fn prepare(&self, expanded_source: &str) -> (r: Result<(ModeContext, ExecutionTarget), Numora>)
        ensures
            match modes_outcome(expanded_source@) {
                Ok(n) => match target_of(execution_mode_of(n)) {
                    Some(t) => r matches Ok((c, u)) && c@ == n && u == t,
                    None => evaluation_error(r, "Unknown execution mode: "@ + execution_mode_of(n)),
                },
                Err(m) => evaluation_error(r, m),
            },
    {
        let requested = detect_run_modes(expanded_source);
        let pipeline = ModePipeline::new(requested)?;
        let context = pipeline.into_context();
        let target = ModeExecutor::select(&context)?;
        Ok((context, target))
    }

    /// Is the source a single expression rather than a program?
    pub fn looks_like_direct_expression(&self, source: &str) -> (r: bool)
        ensures
            r == is_direct_expression(source@),
    {
        let v = chars_of(source);
        let t = trim_chars(&v);
        if t.len() == 0 {
            return false;
        }
        let mut newline: Vec<char> = Vec::new();
        newline.push('\n');
        assert(newline@ =~= seq!['\n']);
        if contains_chars(&t, &newline) {
            return false;
        }
        let run = chars_of("@run");
        if starts_with_chars(&t, &run) {
            return false;
        }
        let given = chars_of("given:");
        let formula = chars_of("formula:");
        let find = chars_of("find:");
        if contains_chars(&t, &given) || contains_chars(&t, &formula) || contains_chars(&t, &find) {
            return false;
        }
        true
    }
}

} // verus!
