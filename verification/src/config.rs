//! What the server is configured with, and what follows from it for its pages.

use crate::text::{replace_all, replaced};
use vstd::prelude::*;

verus! {

/// Whether the server may write to the tracker.
#[derive(Debug, PartialEq, Eq)]
pub enum Mode {
    ReadOnly,
    /// Writing is allowed; the field names the file that holds the access token.
    ReadWrite(String),
}

#[derive(Debug)]
pub struct Config {
    pub owner: String,
    pub repo: String,
    pub mode: Mode,
    pub document: String,
}

#[derive(Debug)]
pub struct ServerState {
    pub config: Config,
}

/// What a client is told of `mode`.
pub open spec fn mode_report(mode: Mode) -> Seq<char> {
    match mode {
        Mode::ReadOnly => "{ \"readOnly\": true }"@,
        Mode::ReadWrite(_) => "{ \"readOnly\": false }"@,
    }
}

/// The place in the page template where the document goes.
pub open spec fn document_slot() -> Seq<char> {
    "{DOCUMENT}"@
}

impl Clone for Mode {
    fn clone(&self) -> (r: Self)
        ensures
            r == *self,
    {
        match self {
            Mode::ReadOnly => Mode::ReadOnly,
            Mode::ReadWrite(token_file) => Mode::ReadWrite(token_file.clone()),
        }
    }
}

impl Clone for Config {
    fn clone(&self) -> (r: Self)
        ensures
            r == *self,
    {
        Config {
            owner: self.owner.clone(),
            repo: self.repo.clone(),
            mode: self.mode.clone(),
            document: self.document.clone(),
        }
    }
}

impl Clone for ServerState {
    fn clone(&self) -> (r: Self)
        ensures
            r == *self,
    {
        ServerState { config: self.config.clone() }
    }
}

impl Mode {
    /// Whether annotations may be filed. This is asked before the filing of
    /// an annotation begins.
    pub fn allows_writes(&self) -> (r: bool)
        ensures
            r == (self is ReadWrite),
    {
        match self {
            Mode::ReadOnly => false,
            Mode::ReadWrite(_) => true,
        }
    }

    /// What a client is told of the mode.
    pub fn report(&self) -> (r: &'static str)
        ensures
            r@ == mode_report(*self),
    {
        match self {
            Mode::ReadOnly => "{ \"readOnly\": true }",
            Mode::ReadWrite(_) => "{ \"readOnly\": false }",
        }
    }
}

/// The page that shows `document`: the template with the document in each of its slots.
pub fn render_index(template: &str, document: &str) -> (r: String)
    ensures
        r@ == replaced(template@, document_slot(), document@),
{
    replace_all(template, "{DOCUMENT}", document)
}

} // verus!
