//! What the dependency checker says and hears on a terminal: how a message
//! is marked, and what an answer to a question means.

use vstd::prelude::*;
use vstd::string::*;

verus! {

/// What a message is about.
#[derive(Clone, Copy, Debug, PartialEq, Eq)]
pub enum MessageKind {
    Success,
    Info,
    Warning,
    Error,
    Update,
    Question,
}

/// What the user answered to a question.
#[derive(Clone, Copy, Debug, PartialEq, Eq)]
pub enum Answer {
    /// Yes, this once.
    Yes,
    /// Yes, and the same for what follows.
    All,
    /// Anything else.
    No,
}

/// What `str::trim` makes of a text.
pub uninterp spec fn trimmed(text: Seq<char>) -> Seq<char>;

/// What `str::to_lowercase` makes of a text.
pub uninterp spec fn lowercased(text: Seq<char>) -> Seq<char>;

/// `str::trim` cuts the white space at both ends, as Unicode defines white
/// space. The contract only names the outcome.
pub assume_specification[ str::trim ](text: &str) -> (cut: &str)
    ensures
        cut@ == trimmed(text@),
;

/// `str::to_lowercase` puts every character in lower case, as Unicode
/// defines it. The contract only names the outcome.
pub assume_specification[ str::to_lowercase ](text: &str) -> (lower: String)
    ensures
        lower@ == lowercased(text@),
;

/// The mark that stands before a message: a pictogram, or a word in
/// capitals where the output is to be plain.
pub open spec fn mark(kind: MessageKind, quiet: bool) -> Seq<char> {
    match kind {
        MessageKind::Success => if quiet {
            "SUCCESS: "@
        } else {
            "✅ "@
        },
        MessageKind::Info => if quiet {
            "INFO: "@
        } else {
            "ℹ️  "@
        },
        MessageKind::Warning => if quiet {
            "WARNING: "@
        } else {
            "⚠️  "@
        },
        MessageKind::Error => if quiet {
            "ERROR: "@
        } else {
            "❌ "@
        },
        MessageKind::Update => if quiet {
            "UPDATE: "@
        } else {
            "🔄 "@
        },
        MessageKind::Question => if quiet {
            "QUESTION: "@
        } else {
            "❓ "@
        },
    }
}

/// The mark that opens a header.
pub open spec fn header_mark(quiet: bool) -> Seq<char> {
    if quiet {
        "\nHEADER: "@
    } else {
        "\n🚀 "@
    }
}

/// How wide the rule under a header is.
pub const RULE_WIDTH: usize = 80;

/// A rule of `width` equal signs.
pub open spec fn rule(width: nat) -> Seq<char> {
    Seq::new(width, |i: int| '=')
}

/// What an answer means once it is trimmed and in lower case.
pub open spec fn answer_for(normalized: Seq<char>) -> Answer {
    if normalized == "y"@ || normalized == "yes"@ || normalized == "oui"@ {
        Answer::Yes
    } else if normalized == "a"@ || normalized == "all"@ || normalized == "tout"@ {
        Answer::All
    } else {
        Answer::No
    }
}

/// The line that a message is printed as.
pub fn decorate(kind: MessageKind, message: &str, quiet: bool) -> (line: String)
    ensures
        line@ == mark(kind, quiet) + message@,
{
    let mark = match kind {
        MessageKind::Success => if quiet {
            "SUCCESS: "
        } else {
            "✅ "
        },
        MessageKind::Info => if quiet {
            "INFO: "
        } else {
            "ℹ️  "
        },
        MessageKind::Warning => if quiet {
            "WARNING: "
        } else {
            "⚠️  "
        },
        MessageKind::Error => if quiet {
            "ERROR: "
        } else {
            "❌ "
        },
        MessageKind::Update => if quiet {
            "UPDATE: "
        } else {
            "🔄 "
        },
        MessageKind::Question => if quiet {
            "QUESTION: "
        } else {
            "❓ "
        },
    };
    mark.to_owned().concat(message)
}

/// The two lines that a header is printed as, after an empty line: the
/// marked title, and a rule under it.
pub fn header(title: &str, quiet: bool) -> (lines: String)
    ensures
        lines@ == (header_mark(quiet) + title@).push('\n') + rule(RULE_WIDTH as nat),
{
    let mark = if quiet {
        "\nHEADER: "
    } else {
        "\n🚀 "
    };
    let mut lines = mark.to_owned().concat(title);
    lines.push('\n');
    let ghost top = lines@;
    let mut i: usize = 0;
    while i < RULE_WIDTH
        invariant
            i <= RULE_WIDTH,
            lines@ == top + rule(i as nat),
        decreases RULE_WIDTH - i,
    {
        lines.push('=');
        i += 1;
        assert(top + rule(i as nat) =~= (top + rule((i - 1) as nat)).push('='));
    }
    lines
}

/// What an answer means that is already trimmed and in lower case:
/// `y`, `yes` and `oui` say yes; `a`, `all` and `tout` say yes to all;
/// anything else says no.
pub fn answer_of(normalized: &str) -> (answer: Answer)
    ensures
        answer == answer_for(normalized@),
{
    if normalized.eq("y") || normalized.eq("yes") || normalized.eq("oui") {
        Answer::Yes
    } else if normalized.eq("a") || normalized.eq("all") || normalized.eq("tout") {
        Answer::All
    } else {
        Answer::No
    }
}

/// What a line typed by the user means: the line is trimmed and put in
/// lower case, then read by `answer_of`.
pub fn interpret_answer(input: &str) -> (answer: Answer)
    ensures
        answer == answer_for(lowercased(trimmed(input@))),
{
    let lower = input.trim().to_lowercase();
    answer_of(lower.as_str())
}

/// Whether an update goes ahead. Where the output is plain nobody is
/// asked and every update goes ahead; else the answer decides.
pub fn confirms(quiet: bool, answer: Answer) -> (go: bool)
    ensures
        go == (quiet || answer != Answer::No),
{
    quiet || match answer {
        Answer::No => false,
        _ => true,
    }
}

} // verus!
