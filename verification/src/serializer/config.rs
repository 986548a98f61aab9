//! Options for writing records: how strictly sizes are held to the original.
use crate::text::{push_str, to_owned_string};
use vstd::prelude::*;
use vstd::string::*;

verus! {

/// How strictly the writer holds records to their original sizes.
#[derive(Debug, Clone, Copy, PartialEq, Eq, Structural)]
pub enum SerializerMode {
    /// Every record keeps its original size.
    Strict,
    /// String records (type 6) may change size; the others may not.
    FlexibleStrings,
    /// Chooses by content.
    Adaptive,
}

/// The name a mode is shown by.
pub open spec fn mode_text(m: SerializerMode) -> Seq<char> {
    match m {
        SerializerMode::Strict => "Strict"@,
        SerializerMode::FlexibleStrings => "FlexibleStrings"@,
        SerializerMode::Adaptive => "Adaptive"@,
    }
}

/// `true` or `false`.
pub open spec fn bool_text(b: bool) -> Seq<char> {
    if b { "true"@ } else { "false"@ }
}

impl SerializerMode {
    /// The name this mode is shown by.
    pub fn display_text(&self) -> (s: String)
        ensures
            s@ == mode_text(*self),
    {
        match self {
            SerializerMode::Strict => to_owned_string("Strict"),
            SerializerMode::FlexibleStrings => to_owned_string("FlexibleStrings"),
            SerializerMode::Adaptive => to_owned_string("Adaptive"),
        }
    }
}

/// Options for the writer.
#[derive(Debug, Clone)]
pub struct SerializerConfig {
    pub mode: SerializerMode,
    /// Whether to report every change and diagnostic.
    pub verbose_diagnostics: bool,
    /// Whether records may lack metadata.
    pub allow_missing_metadata: bool,
    /// Whether to report a summary of the records written.
    pub log_record_summary: bool,
}

/// The fields of a configuration, in order.
pub open spec fn config_is(c: SerializerConfig, mode: SerializerMode, verbose: bool, allow: bool, summary: bool) -> bool {
    &&& c.mode == mode
    &&& c.verbose_diagnostics == verbose
    &&& c.allow_missing_metadata == allow
    &&& c.log_record_summary == summary
}

/// How a configuration is shown.
pub open spec fn config_text(c: SerializerConfig) -> Seq<char> {
    "SerializerConfig { mode: "@ + mode_text(c.mode) + ", verbose: "@ + bool_text(c.verbose_diagnostics)
        + ", allow_missing: "@ + bool_text(c.allow_missing_metadata) + ", summary: "@ + bool_text(
        c.log_record_summary,
    ) + " }"@
}

fn push_bool(s: &mut String, b: bool)
    ensures
        final(s)@ == old(s)@ + bool_text(b),
{
    if b {
        push_str(s, "true");
    } else {
        push_str(s, "false");
    }
}

impl Default for SerializerConfig {
    /// Flexible strings, missing metadata allowed, nothing extra reported.
    fn default() -> (c: Self)
        ensures
            config_is(c, SerializerMode::FlexibleStrings, false, true, false),
    {
        SerializerConfig {
            mode: SerializerMode::FlexibleStrings,
            verbose_diagnostics: false,
            allow_missing_metadata: true,
            log_record_summary: false,
        }
    }
}

impl SerializerConfig {
    /// For writing back edited saves: flexible strings, with every diagnostic and a summary.
    pub fn default_for_modifier() -> (c: Self)
        ensures
            config_is(c, SerializerMode::FlexibleStrings, true, true, true),
    {
        SerializerConfig {
            mode: SerializerMode::FlexibleStrings,
            verbose_diagnostics: true,
            allow_missing_metadata: true,
            log_record_summary: true,
        }
    }

    /// For exact copies: strict sizes, metadata required, nothing extra reported.
    pub fn strict() -> (c: Self)
        ensures
            config_is(c, SerializerMode::Strict, false, false, false),
    {
        SerializerConfig {
            mode: SerializerMode::Strict,
            verbose_diagnostics: false,
            allow_missing_metadata: false,
            log_record_summary: false,
        }
    }

    /// Flexible strings, reporting everything.
    pub fn verbose() -> (c: Self)
        ensures
            config_is(c, SerializerMode::FlexibleStrings, true, true, true),
    {
        SerializerConfig {
            mode: SerializerMode::FlexibleStrings,
            verbose_diagnostics: true,
            allow_missing_metadata: true,
            log_record_summary: true,
        }
    }

    /// The adaptive mode, missing metadata allowed, nothing extra reported.
    pub fn adaptive() -> (c: Self)
        ensures
            config_is(c, SerializerMode::Adaptive, false, true, false),
    {
        SerializerConfig {
            mode: SerializerMode::Adaptive,
            verbose_diagnostics: false,
            allow_missing_metadata: true,
            log_record_summary: false,
        }
    }

    /// This configuration with another mode.
    pub fn with_mode(self, mode: SerializerMode) -> (c: Self)
        ensures
            config_is(c, mode, self.verbose_diagnostics, self.allow_missing_metadata, self.log_record_summary),
    {
        SerializerConfig { mode, ..self }
    }

    /// This configuration with diagnostics on or off.
    pub fn with_verbose_diagnostics(self, verbose: bool) -> (c: Self)
        ensures
            config_is(c, self.mode, verbose, self.allow_missing_metadata, self.log_record_summary),
    {
        SerializerConfig { verbose_diagnostics: verbose, ..self }
    }

    /// This configuration with missing metadata allowed or not.
    pub fn with_allow_missing_metadata(self, allow: bool) -> (c: Self)
        ensures
            config_is(c, self.mode, self.verbose_diagnostics, allow, self.log_record_summary),
    {
        SerializerConfig { allow_missing_metadata: allow, ..self }
    }

    /// This configuration with the summary on or off.
    pub fn with_log_record_summary(self, log: bool) -> (c: Self)
        ensures
            config_is(c, self.mode, self.verbose_diagnostics, self.allow_missing_metadata, log),
    {
        SerializerConfig { log_record_summary: log, ..self }
    }

    /// How this configuration is shown.
    pub fn display_text(&self) -> (s: String)
        ensures
            s@ == config_text(*self),
    {
        let mut s = to_owned_string("SerializerConfig { mode: ");
        let m = self.mode.display_text();
        push_str(&mut s, m.as_str());
        push_str(&mut s, ", verbose: ");
        push_bool(&mut s, self.verbose_diagnostics);
        push_str(&mut s, ", allow_missing: ");
        push_bool(&mut s, self.allow_missing_metadata);
        push_str(&mut s, ", summary: ");
        push_bool(&mut s, self.log_record_summary);
        push_str(&mut s, " }");
        s
    }
}

} // verus!
