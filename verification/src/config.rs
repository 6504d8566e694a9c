//! The configuration the pipeline runs under: output language, the
//! optional text blocks around the header, and the rename rule chosen
//! for each identifier role.

use vstd::prelude::*;

use crate::rename::RenameRule;

verus! {

/// The output flavor of the generated header.
#[derive(Debug, Clone, Copy, PartialEq, Eq, Structural)]
pub enum Language {
    C,
    Cxx,
}

/// Everything the emission driver and the writer consult.  Loading a
/// configuration document and filling this value belongs to the
/// surrounding program.
#[derive(Debug)]
pub struct Config {
    /// The output flavor; C++ wraps the declarations in `extern "C"`.
    pub language: Language,
    /// Optional text placed at the very top of the header.
    pub header: Option<String>,
    /// Optional text placed at the very bottom of the header.
    pub trailer: Option<String>,
    /// Optional symbol for an `#ifndef`/`#define`/`#endif` guard.
    pub include_guard: Option<String>,
    /// Optional warning line repeated between the blocks.
    pub autogen_warning: Option<String>,
    /// Whether to emit a comment naming the generator version.
    pub include_version: bool,
    /// Whether the parser front end should expand macros first.
    pub expand: bool,
    /// The rule applied to aggregate field names.
    pub field_rename_rule: RenameRule,
    /// The rule applied to enumeration variant names.
    pub variant_rename_rule: RenameRule,
    /// The rule applied to function argument names.
    pub arg_rename_rule: RenameRule,
}

/// The mathematical shape of a `Config`.
#[verifier::ext_equal]
pub struct ConfigView {
    pub language: Language,
    pub header: Option<Seq<char>>,
    pub trailer: Option<Seq<char>>,
    pub include_guard: Option<Seq<char>>,
    pub autogen_warning: Option<Seq<char>>,
    pub include_version: bool,
    pub expand: bool,
    pub field_rename_rule: RenameRule,
    pub variant_rename_rule: RenameRule,
    pub arg_rename_rule: RenameRule,
}

/// The view of an optional string.
pub open spec fn opt_view(o: Option<String>) -> Option<Seq<char>> {
    match o {
        Some(s) => Some(s@),
        None => None,
    }
}

impl View for Config {
    type V = ConfigView;

    open spec fn view(&self) -> ConfigView {
        ConfigView {
            language: self.language,
            header: opt_view(self.header),
            trailer: opt_view(self.trailer),
            include_guard: opt_view(self.include_guard),
            autogen_warning: opt_view(self.autogen_warning),
            include_version: self.include_version,
            expand: self.expand,
            field_rename_rule: self.field_rename_rule,
            variant_rename_rule: self.variant_rename_rule,
            arg_rename_rule: self.arg_rename_rule,
        }
    }
}

/// A copy of an optional string, equal in view.
fn duplicate_opt(o: &Option<String>) -> (r: Option<String>)
    ensures
        opt_view(r) == opt_view(*o),
{
    match o {
        Some(s) => Some(s.clone()),
        None => None,
    }
}

impl Config {
    /// The configuration used when no document supplies one: C++
    /// output, nothing optional, and no renaming.
    pub fn blank() -> (r: Config)
        ensures
            r@.language == Language::Cxx,
            r@.header is None,
            r@.trailer is None,
            r@.include_guard is None,
            r@.autogen_warning is None,
            !r@.include_version,
            !r@.expand,
            r@.field_rename_rule == RenameRule::Keep,
            r@.variant_rename_rule == RenameRule::Keep,
            r@.arg_rename_rule == RenameRule::Keep,
    {
        Config {
            language: Language::Cxx,
            header: None,
            trailer: None,
            include_guard: None,
            autogen_warning: None,
            include_version: false,
            expand: false,
            field_rename_rule: RenameRule::Keep,
            variant_rename_rule: RenameRule::Keep,
            arg_rename_rule: RenameRule::Keep,
        }
    }

    /// A copy, equal in view.
    pub fn duplicate(&self) -> (r: Config)
        ensures
            r@ == self@,
    {
        let r = Config {
            language: self.language,
            header: duplicate_opt(&self.header),
            trailer: duplicate_opt(&self.trailer),
            include_guard: duplicate_opt(&self.include_guard),
            autogen_warning: duplicate_opt(&self.autogen_warning),
            include_version: self.include_version,
            expand: self.expand,
            field_rename_rule: self.field_rename_rule,
            variant_rename_rule: self.variant_rename_rule,
            arg_rename_rule: self.arg_rename_rule,
        };
        proof {
            assert(r@ =~= self@);
        }
        r
    }
}

impl Clone for Config {
    fn clone(&self) -> (r: Self)
        ensures
            r@ == self@,
    {
        self.duplicate()
    }
}

impl Default for Config {
    /// The blank configuration.
    fn default() -> (r: Config)
        ensures
            r@.language == Language::Cxx,
            r@.header is None,
            r@.include_guard is None,
            r@.field_rename_rule == RenameRule::Keep,
            r@.variant_rename_rule == RenameRule::Keep,
            r@.arg_rename_rule == RenameRule::Keep,
    {
        Config::blank()
    }
}

} // verus!
