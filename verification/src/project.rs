//! Scaffolding of a new project: the rules for its name and the text of
//! the files it starts with.
use crate::source::{to_uppercase, uppercase};
use crate::text::push_str;
use vstd::prelude::*;

verus! {

/// Why a project name is refused.
#[derive(Debug, Clone, PartialEq, Eq)]
pub enum ProjectNameError {
    /// The name is empty.
    Empty,
    /// The name holds a character other than an ASCII letter, digit or hyphen.
    InvalidCharacters(String),
    /// The name starts or ends with a hyphen.
    HyphenAtEdge(String),
}

/// Whether a character may stand in a project name.
pub open spec fn is_name_char(c: char) -> bool {
    ('a' <= c && c <= 'z') || ('A' <= c && c <= 'Z') || ('0' <= c && c <= '9') || c == '-'
}

/// The model of a name error.
pub enum SpecNameError {
    Empty,
    InvalidCharacters(Seq<char>),
    HyphenAtEdge(Seq<char>),
}

pub open spec fn name_error_view(e: ProjectNameError) -> SpecNameError {
    match e {
        ProjectNameError::Empty => SpecNameError::Empty,
        ProjectNameError::InvalidCharacters(n) => SpecNameError::InvalidCharacters(n@),
        ProjectNameError::HyphenAtEdge(n) => SpecNameError::HyphenAtEdge(n@),
    }
}

/// Whether a name is acceptable, and if not, why: it must be non-empty,
/// made of ASCII letters, digits and hyphens, and neither start nor end
/// with a hyphen. The first rule broken is reported.
pub open spec fn name_check(name: Seq<char>) -> Option<SpecNameError> {
    if name.len() == 0 {
        Some(SpecNameError::Empty)
    } else if !(forall|i: int| 0 <= i < name.len() ==> is_name_char(#[trigger] name[i])) {
        Some(SpecNameError::InvalidCharacters(name))
    } else if name[0] == '-' || name.last() == '-' {
        Some(SpecNameError::HyphenAtEdge(name))
    } else {
        None
    }
}

/// Checks a project name.
pub fn validate_project_name(name: &str) -> (r: Result<(), ProjectNameError>)
    ensures
        match name_check(name@) {
            None => r is Ok,
            Some(e) => r matches Err(x) && name_error_view(x) == e,
        },
{
    let n = name.unicode_len();
    if n == 0 {
        return Err(ProjectNameError::Empty);
    }
    let mut i: usize = 0;
    while i < n
        invariant
            n == name@.len(),
            i <= n,
            forall|j: int| 0 <= j < i ==> is_name_char(#[trigger] name@[j]),
        decreases n - i,
    {
        let c = name.get_char(i);
        let ok = ('a' <= c && c <= 'z') || ('A' <= c && c <= 'Z') || ('0' <= c && c <= '9') || c
            == '-';
        if !ok {
            assert(!is_name_char(name@[i as int]));
            return Err(ProjectNameError::InvalidCharacters(String::from_str(name)));
        }
        i = i + 1;
    }
    if name.get_char(0) == '-' || name.get_char(n - 1) == '-' {
        return Err(ProjectNameError::HyphenAtEdge(String::from_str(name)));
    }
    Ok(())
}

impl ProjectNameError {
    /// The message that reports the error.
    pub fn message(&self) -> (r: String)
        ensures
            r@ == name_error_message(name_error_view(*self)),
    {
        let mut r = String::new();
        match self {
            ProjectNameError::Empty => {
                push_str(&mut r, "Project name cannot be empty");
            },
            ProjectNameError::InvalidCharacters(n) => {
                push_str(&mut r, "Project name '");
                push_str(&mut r, n.as_str());
                push_str(
                    &mut r,
                    "' contains invalid characters (use alphanumeric and hyphens only)",
                );
            },
            ProjectNameError::HyphenAtEdge(n) => {
                push_str(&mut r, "Project name '");
                push_str(&mut r, n.as_str());
                push_str(&mut r, "' cannot start or end with a hyphen");
            },
        }
        r
    }
}

/// The message that reports a name error.
pub open spec fn name_error_message(e: SpecNameError) -> Seq<char> {
    match e {
        SpecNameError::Empty => "Project name cannot be empty"@,
        SpecNameError::InvalidCharacters(n) => "Project name '"@ + n
            + "' contains invalid characters (use alphanumeric and hyphens only)"@,
        SpecNameError::HyphenAtEdge(n) => "Project name '"@ + n
            + "' cannot start or end with a hyphen"@,
    }
}

/// The project file of a new project named `name`.
pub open spec fn cobalt_toml_text(name: Seq<char>) -> Seq<char> {
    "[project]\nname = \""@ + name
        + "\"\nversion = \"0.1.0\"\nentry = \"src/screens/MAIN.cbl\"\n\n[build]\ntarget = \"terminal\"\nout_dir = \"dist\"\n\n[theme]\nname = \"default\"\n\n[theme.palette]\n0 = \"#1E293B\"\n1 = \"#3B82F6\"\n2 = \"#FFFFFF\"\n3 = \"#F8FAFC\"\n4 = \"#1A1A1A\"\n5 = \"#2563EB\"\n6 = \"#16A34A\"\n7 = \"#DC2626\"\n\n[theme.typography]\nheading = \"Inter\"\nbody = \"Inter\"\nmono = \"JetBrains Mono\"\n"@
}

/// The text of `cobalt.toml` for a new project.
pub fn generate_cobalt_toml(name: &str) -> (r: String)
    ensures
        r@ == cobalt_toml_text(name@),
{
    let mut r = String::new();
    push_str(&mut r, "[project]\nname = \"");
    push_str(&mut r, name);
    push_str(
        &mut r,
        "\"\nversion = \"0.1.0\"\nentry = \"src/screens/MAIN.cbl\"\n\n[build]\ntarget = \"terminal\"\nout_dir = \"dist\"\n\n[theme]\nname = \"default\"\n\n[theme.palette]\n0 = \"#1E293B\"\n1 = \"#3B82F6\"\n2 = \"#FFFFFF\"\n3 = \"#F8FAFC\"\n4 = \"#1A1A1A\"\n5 = \"#2563EB\"\n6 = \"#16A34A\"\n7 = \"#DC2626\"\n\n[theme.typography]\nheading = \"Inter\"\nbody = \"Inter\"\nmono = \"JetBrains Mono\"\n",
    );
    r
}

/// The starting program of a new project named `name`, whose PROGRAM-ID is
/// `program_id`.
pub open spec fn main_cbl_text(name: Seq<char>, program_id: Seq<char>) -> Seq<char> {
    "IDENTIFICATION DIVISION.\n       PROGRAM-ID. "@ + program_id
        + ".\n\n       DATA DIVISION.\n       WORKING-STORAGE SECTION.\n       01  APP-STATE.\n           05  STATUS-MSG     PIC X(60) VALUE \"Welcome to "@
        + name
        + "!\".\n\n       SCREEN SECTION.\n       01  MAIN-SCREEN.\n           05  HEADER.\n               10  TITLE      PIC X(30) VALUE \""@
        + name
        + "\".\n           05  CONTENT.\n               10  MSG-TEXT   PIC X(60) USING STATUS-MSG.\n\n       PROCEDURE DIVISION.\n       MAIN-LOOP.\n           STOP RUN.\n"@
}

/// The text of `src/screens/MAIN.cbl` for a new project: its PROGRAM-ID is
/// the project name upper-cased.
pub fn generate_main_cbl(name: &str) -> (r: String)
    ensures
        r@ == main_cbl_text(name@, uppercase(name@)),
{
    let program_id = to_uppercase(name);
    let mut r = String::new();
    push_str(&mut r, "IDENTIFICATION DIVISION.\n       PROGRAM-ID. ");
    push_str(&mut r, program_id.as_str());
    push_str(
        &mut r,
        ".\n\n       DATA DIVISION.\n       WORKING-STORAGE SECTION.\n       01  APP-STATE.\n           05  STATUS-MSG     PIC X(60) VALUE \"Welcome to ",
    );
    push_str(&mut r, name);
    push_str(
        &mut r,
        "!\".\n\n       SCREEN SECTION.\n       01  MAIN-SCREEN.\n           05  HEADER.\n               10  TITLE      PIC X(30) VALUE \"",
    );
    push_str(&mut r, name);
    push_str(
        &mut r,
        "\".\n           05  CONTENT.\n               10  MSG-TEXT   PIC X(60) USING STATUS-MSG.\n\n       PROCEDURE DIVISION.\n       MAIN-LOOP.\n           STOP RUN.\n",
    );
    r
}

/// The text of `.gitignore` for a new project.
pub fn generate_gitignore() -> (r: &'static str)
    ensures
        r@ == "dist/\ntarget/\n"@,
{
    "dist/\ntarget/\n"
}

} // verus!
