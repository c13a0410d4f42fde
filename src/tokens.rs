//! The closed vocabulary of a pattern: sections, separators, and the resolver
//! that maps a raw piece of a pattern to the one token spelled by it.
use vstd::prelude::*;
use vstd::string::*;

use crate::error::FormatError;

verus! {

/// A single literal character that stands between sections.
#[derive(Debug, Clone, Copy, PartialEq, Eq, Structural)]
pub enum Separator {
    Slash,
    Period,
    Hyphen,
    Space,
}

/// A part of a pattern that is replaced by a component of the date.
#[allow(clippy::upper_case_acronyms)]
#[derive(Debug, Clone, Copy, PartialEq, Eq, Structural)]
pub enum Section {
    /// Year modulo 100 (never negative), as two digits.
    YY,
    /// Full year.
    YYYY,
    /// Month number.
    M,
    /// Month number, at least two characters wide.
    MM,
    /// Abbreviated month name.
    MMM,
    /// Day of the month.
    D,
    /// Day of the month, at least two characters wide.
    DD,
}

/// One resolved element of a pattern.
#[derive(Debug, Clone, Copy, PartialEq, Eq, Structural)]
pub enum FormatPart {
    Section(Section),
    Separator(Separator),
}

/// The character of each separator.
pub open spec fn separator_char(s: Separator) -> char {
    match s {
        Separator::Slash => '/',
        Separator::Period => '.',
        Separator::Hyphen => '-',
        Separator::Space => ' ',
    }
}

/// Whether `c` is one of the separator characters.
pub open spec fn is_separator(c: char) -> bool {
    c == '/' || c == '.' || c == '-' || c == ' '
}

/// The exact spelling of each section.
pub open spec fn section_spelling(s: Section) -> Seq<char> {
    match s {
        Section::YY => seq!['y', 'y'],
        Section::YYYY => seq!['y', 'y', 'y', 'y'],
        Section::M => seq!['m'],
        Section::MM => seq!['m', 'm'],
        Section::MMM => seq!['m', 'm', 'm'],
        Section::D => seq!['d'],
        Section::DD => seq!['d', 'd'],
    }
}

/// The exact spelling of each part of a pattern.
pub open spec fn part_spelling(p: FormatPart) -> Seq<char> {
    match p {
        FormatPart::Section(s) => section_spelling(s),
        FormatPart::Separator(s) => seq![separator_char(s)],
    }
}

/// The part of the vocabulary spelled exactly `s`, if any.
pub open spec fn part_named(s: Seq<char>) -> Option<FormatPart> {
    if s == seq!['y', 'y'] {
        Some(FormatPart::Section(Section::YY))
    } else if s == seq!['y', 'y', 'y', 'y'] {
        Some(FormatPart::Section(Section::YYYY))
    } else if s == seq!['m'] {
        Some(FormatPart::Section(Section::M))
    } else if s == seq!['m', 'm'] {
        Some(FormatPart::Section(Section::MM))
    } else if s == seq!['m', 'm', 'm'] {
        Some(FormatPart::Section(Section::MMM))
    } else if s == seq!['d'] {
        Some(FormatPart::Section(Section::D))
    } else if s == seq!['d', 'd'] {
        Some(FormatPart::Section(Section::DD))
    } else if s == seq!['/'] {
        Some(FormatPart::Separator(Separator::Slash))
    } else if s == seq!['.'] {
        Some(FormatPart::Separator(Separator::Period))
    } else if s == seq!['-'] {
        Some(FormatPart::Separator(Separator::Hyphen))
    } else if s == seq![' '] {
        Some(FormatPart::Separator(Separator::Space))
    } else {
        None
    }
}

/// Every spelling names exactly one part, and a part is found by its spelling:
/// the vocabulary is unambiguous.
pub proof fn lemma_spelling_names_part(p: FormatPart, s: Seq<char>)
    ensures
        part_named(s) == Some(p) <==> part_spelling(p) == s,
{
    assert(seq!['y', 'y'].len() == 2 && seq!['y', 'y'][0] == 'y');
    assert(seq!['y', 'y', 'y', 'y'].len() == 4 && seq!['y', 'y', 'y', 'y'][0] == 'y');
    assert(seq!['m'].len() == 1 && seq!['m'][0] == 'm');
    assert(seq!['m', 'm'].len() == 2 && seq!['m', 'm'][0] == 'm');
    assert(seq!['m', 'm', 'm'].len() == 3 && seq!['m', 'm', 'm'][0] == 'm');
    assert(seq!['d'].len() == 1 && seq!['d'][0] == 'd');
    assert(seq!['d', 'd'].len() == 2 && seq!['d', 'd'][0] == 'd');
    assert(seq!['/'].len() == 1 && seq!['/'][0] == '/');
    assert(seq!['.'].len() == 1 && seq!['.'][0] == '.');
    assert(seq!['-'].len() == 1 && seq!['-'][0] == '-');
    assert(seq![' '].len() == 1 && seq![' '][0] == ' ');
}

/// A single separator character spells a separator part.
pub proof fn lemma_separator_piece(c: char)
    requires
        is_separator(c),
    ensures
        part_named(seq![c]) matches Some(FormatPart::Separator(_)),
{
    let v = if c == '/' {
        Separator::Slash
    } else if c == '.' {
        Separator::Period
    } else if c == '-' {
        Separator::Hyphen
    } else {
        Separator::Space
    };
    lemma_spelling_names_part(FormatPart::Separator(v), seq![c]);
    assert(part_spelling(FormatPart::Separator(v)) =~= seq![c]);
}

impl Separator {
    /// The character of this separator, as a string of length one.
    pub fn value(&self) -> (r: &'static str)
        ensures
            r@ == seq![separator_char(*self)],
    {
        match *self {
            Separator::Slash => {
                proof {
                    reveal_strlit("/");
                }
                "/"
            },
            Separator::Period => {
                proof {
                    reveal_strlit(".");
                }
                "."
            },
            Separator::Hyphen => {
                proof {
                    reveal_strlit("-");
                }
                "-"
            },
            Separator::Space => {
                proof {
                    reveal_strlit(" ");
                }
                " "
            },
        }
    }
}

impl Section {
    /// The spelling of this section in a pattern.
    pub fn value(&self) -> (r: &'static str)
        ensures
            r@ == section_spelling(*self),
    {
        match *self {
            Section::YY => {
                proof {
                    reveal_strlit("yy");
                }
                "yy"
            },
            Section::YYYY => {
                proof {
                    reveal_strlit("yyyy");
                }
                "yyyy"
            },
            Section::M => {
                proof {
                    reveal_strlit("m");
                }
                "m"
            },
            Section::MM => {
                proof {
                    reveal_strlit("mm");
                }
                "mm"
            },
            Section::MMM => {
                proof {
                    reveal_strlit("mmm");
                }
                "mmm"
            },
            Section::D => {
                proof {
                    reveal_strlit("d");
                }
                "d"
            },
            Section::DD => {
                proof {
                    reveal_strlit("dd");
                }
                "dd"
            },
        }
    }
}

/// Whether two strings hold the same characters.
pub fn same_chars(a: &str, b: &str) -> (r: bool)
    ensures
        r == (a@ == b@),
{
    let n = a.unicode_len();
    if n != b.unicode_len() {
        return false;
    }
    let mut i: usize = 0;
    while i < n
        invariant
            n == a@.len(),
            n == b@.len(),
            i <= n,
            a@.subrange(0, i as int) == b@.subrange(0, i as int),
        decreases n - i,
    {
        if a.get_char(i) != b.get_char(i) {
            return false;
        }
        assert(a@.subrange(0, i + 1) =~= a@.subrange(0, i as int).push(a@[i as int]));
        assert(b@.subrange(0, i + 1) =~= b@.subrange(0, i as int).push(b@[i as int]));
        i = i + 1;
    }
    assert(a@ =~= a@.subrange(0, n as int));
    assert(b@ =~= b@.subrange(0, n as int));
    true
}

impl FormatPart {
    /// The spelling of this part in a pattern.
    pub fn value(&self) -> (r: &'static str)
        ensures
            r@ == part_spelling(*self),
    {
        match self {
            FormatPart::Section(section) => section.value(),
            FormatPart::Separator(separator) => separator.value(),
        }
    }

    /// The part of the vocabulary spelled exactly `value`; a piece that
    /// spells none of them is reported verbatim.
    pub fn resolve(value: &str) -> (r: Result<FormatPart, FormatError>)
        ensures
            match r {
                Ok(p) => part_named(value@) == Some(p),
                Err(e) => part_named(value@) is None && e is PartNotSupported
                    && e->PartNotSupported_0@ == value@,
            },
    {
        let p = FormatPart::Section(Section::YY);
        if same_chars(value, p.value()) {
            return Ok(p);
        }
        let p = FormatPart::Section(Section::YYYY);
        if same_chars(value, p.value()) {
            return Ok(p);
        }
        let p = FormatPart::Section(Section::M);
        if same_chars(value, p.value()) {
            return Ok(p);
        }
        let p = FormatPart::Section(Section::MM);
        if same_chars(value, p.value()) {
            return Ok(p);
        }
        let p = FormatPart::Section(Section::MMM);
        if same_chars(value, p.value()) {
            return Ok(p);
        }
        let p = FormatPart::Section(Section::D);
        if same_chars(value, p.value()) {
            return Ok(p);
        }
        let p = FormatPart::Section(Section::DD);
        if same_chars(value, p.value()) {
            return Ok(p);
        }
        let p = FormatPart::Separator(Separator::Slash);
        if same_chars(value, p.value()) {
            return Ok(p);
        }
        let p = FormatPart::Separator(Separator::Period);
        if same_chars(value, p.value()) {
            return Ok(p);
        }
        let p = FormatPart::Separator(Separator::Hyphen);
        if same_chars(value, p.value()) {
            return Ok(p);
        }
        let p = FormatPart::Separator(Separator::Space);
        if same_chars(value, p.value()) {
            return Ok(p);
        }
        Err(FormatError::PartNotSupported(String::from_str(value)))
    }
}

} // verus!
