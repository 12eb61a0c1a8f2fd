use vstd::prelude::*;

use crate::doc::str_eq;

verus! {

/// A theme preference: light, dark, or follow the system.
#[derive(Debug, PartialEq, Clone, Copy)]
pub enum ThemePreference {
    Light,
    Dark,
    Auto,
}

/// The preference that a stored string names; anything unrecognised
/// falls back to following the system.
pub open spec fn theme_of_str(s: Seq<char>) -> ThemePreference {
    if s == "light"@ {
        ThemePreference::Light
    } else if s == "dark"@ {
        ThemePreference::Dark
    } else {
        ThemePreference::Auto
    }
}

pub open spec fn theme_str(t: ThemePreference) -> Seq<char> {
    match t {
        ThemePreference::Light => "light"@,
        ThemePreference::Dark => "dark"@,
        ThemePreference::Auto => "auto"@,
    }
}

pub open spec fn theme_icon(t: ThemePreference) -> Seq<char> {
    match t {
        ThemePreference::Light => "✸"@,
        ThemePreference::Dark => "☽"@,
        ThemePreference::Auto => "◐"@,
    }
}

/// The cycle light → dark → auto → light.
pub open spec fn theme_next(t: ThemePreference) -> ThemePreference {
    match t {
        ThemePreference::Light => ThemePreference::Dark,
        ThemePreference::Dark => ThemePreference::Auto,
        ThemePreference::Auto => ThemePreference::Light,
    }
}

impl ThemePreference {
    /// Parses a stored preference string, defaulting to `Auto`.
    pub fn from_str(s: &str) -> (r: ThemePreference)
        ensures
            r == theme_of_str(s@),
    {
        if str_eq(s, "light") {
            ThemePreference::Light
        } else if str_eq(s, "dark") {
            ThemePreference::Dark
        } else {
            ThemePreference::Auto
        }
    }

    /// The string under which the preference is stored.
    pub fn as_str(self) -> (r: &'static str)
        ensures
            r@ == theme_str(self),
    {
        match self {
            ThemePreference::Light => "light",
            ThemePreference::Dark => "dark",
            ThemePreference::Auto => "auto",
        }
    }

    /// The icon shown for the preference.
    pub fn icon(self) -> (r: &'static str)
        ensures
            r@ == theme_icon(self),
    {
        match self {
            ThemePreference::Light => "✸",
            ThemePreference::Dark => "☽",
            ThemePreference::Auto => "◐",
        }
    }

    /// The next preference in the toggle cycle.
    pub fn next(self) -> (r: ThemePreference)
        ensures
            r == theme_next(self),
    {
        match self {
            ThemePreference::Light => ThemePreference::Dark,
            ThemePreference::Dark => ThemePreference::Auto,
            ThemePreference::Auto => ThemePreference::Light,
        }
    }
}

/// Round-trip law: a preference survives being stored as its string and
/// parsed back.
pub proof fn lemma_theme_round_trip(t: ThemePreference)
    ensures
        theme_of_str(theme_str(t)) == t,
{
    reveal_strlit("light");
    reveal_strlit("dark");
    reveal_strlit("auto");
    assert("light"@.len() == 5);
    assert("dark"@.len() == 4);
    assert("auto"@.len() == 4);
    match t {
        ThemePreference::Light => {}
        ThemePreference::Dark => {
            assert("dark"@ != "light"@);
        }
        ThemePreference::Auto => {
            assert("auto"@ != "light"@);
            assert("auto"@[0] == 'a' && "dark"@[0] == 'd');
            assert("auto"@ != "dark"@);
        }
    }
}

/// Full-cycle law: three steps of the toggle cycle return to the
/// starting preference.
pub proof fn lemma_theme_full_cycle(t: ThemePreference)
    ensures
        theme_next(theme_next(theme_next(t))) == t,
{
}

} // verus!
