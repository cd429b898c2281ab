//! Names of the formatter tools that can be installed.
use crate::cli::str_eq;
use vstd::prelude::*;
use vstd::string::*;

verus! {

/// List of Haskell formatters that are available
#[derive(Debug, Clone, Copy, PartialEq, Eq, Structural)]
pub enum Hfmt {
    /// brittany
    Brittany,
    /// floskell
    Floskell,
    /// fourmolu
    Fourmolu,
    /// ormolu, the default Haskell formatter
    Ormolu,
    /// stylish-haskell
    StylishHaskell,
}

/// The command name of a Haskell formatter.
pub open spec fn hfmt_name(h: Hfmt) -> Seq<char> {
    match h {
        Hfmt::Brittany => "brittany"@,
        Hfmt::Floskell => "floskell"@,
        Hfmt::Fourmolu => "fourmolu"@,
        Hfmt::Ormolu => "ormolu"@,
        Hfmt::StylishHaskell => "stylish-haskell"@,
    }
}

impl Hfmt {
    /// The command name of the formatter.
    pub fn name(&self) -> (r: &'static str)
        ensures
            r@ == hfmt_name(*self),
    {
        match self {
            Hfmt::Brittany => "brittany",
            Hfmt::Floskell => "floskell",
            Hfmt::Fourmolu => "fourmolu",
            Hfmt::Ormolu => "ormolu",
            Hfmt::StylishHaskell => "stylish-haskell",
        }
    }

    /// The Haskell formatter with the given command name, if it is one.
    pub fn from_config(code: &str) -> (r: Option<Hfmt>)
        ensures
            r matches Some(h) ==> hfmt_name(h) == code@,
            r is None ==> forall|h: Hfmt| hfmt_name(h) != code@,
    {
        if str_eq(code, "brittany") {
            Some(Hfmt::Brittany)
        } else if str_eq(code, "floskell") {
            Some(Hfmt::Floskell)
        } else if str_eq(code, "fourmolu") {
            Some(Hfmt::Fourmolu)
        } else if str_eq(code, "ormolu") {
            Some(Hfmt::Ormolu)
        } else if str_eq(code, "stylish-haskell") {
            Some(Hfmt::StylishHaskell)
        } else {
            None
        }
    }
}

/// Represents the set of formatter tools
#[derive(Debug, Clone, Copy, PartialEq, Eq, Structural)]
pub enum Tools {
    /// Haskell formatter tool
    HaskellFmts(Hfmt),
    /// gofmt tools
    GoFmt,
    /// rustfmt tools
    RustFmt,
}

impl Tools {
    /// The command name of the tool.
    pub fn name(&self) -> (r: &'static str)
        ensures
            r@ == match *self {
                Tools::HaskellFmts(h) => hfmt_name(h),
                Tools::GoFmt => "gofmt"@,
                Tools::RustFmt => "rustfmt"@,
            },
    {
        match self {
            Tools::HaskellFmts(h) => h.name(),
            Tools::GoFmt => "gofmt",
            Tools::RustFmt => "rustfmt",
        }
    }
}

/// Name of Go formatter
#[derive(Debug, Clone, Copy, PartialEq, Eq, Structural)]
pub enum Gfmt {
    /// the default gofmt
    GoFmt,
}

impl Gfmt {
    /// The Go formatter with the given command name, if it is one.
    pub fn from_config(code: &str) -> (r: Option<Gfmt>)
        ensures
            r is Some <==> code@ == "gofmt"@,
    {
        if str_eq(code, "gofmt") {
            Some(Gfmt::GoFmt)
        } else {
            None
        }
    }
}

/// Name of Rust formatter
#[derive(Debug, Clone, Copy, PartialEq, Eq, Structural)]
pub enum Rfmt {
    /// cargo fmt command
    Cargo,
    /// rustfmt command
    RustFmt,
}

impl Rfmt {
    /// The Rust formatter with the given command name, if it is one.
    pub fn from_config(code: &str) -> (r: Option<Rfmt>)
        ensures
            r == Some(Rfmt::Cargo) <==> code@ == "cargo"@,
            r == Some(Rfmt::RustFmt) <==> code@ == "rustfmt"@,
    {
        proof {
            reveal_strlit("cargo");
            reveal_strlit("rustfmt");
            assert("cargo"@.len() != "rustfmt"@.len());
        }
        if str_eq(code, "cargo") {
            Some(Rfmt::Cargo)
        } else if str_eq(code, "rustfmt") {
            Some(Rfmt::RustFmt)
        } else {
            None
        }
    }
}

} // verus!
