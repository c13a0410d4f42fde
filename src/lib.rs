//! Rendering calendar dates by short patterns such as `yyyy-mm-dd` or `d mmm yy`.
//!
//! A pattern is split into single separators (`/`, `.`, `-`, space) and runs
//! of other characters; each piece must spell a section (`yy`, `yyyy`, `m`,
//! `mm`, `mmm`, `d`, `dd`) or a separator, and at least one must be a
//! section; the result is the rendering of every piece, in order.
use chrono::{Datelike, NaiveDate};
use vstd::prelude::*;
use vstd::string::*;

pub mod error;
pub mod render;
pub mod tokenize;
pub mod tokens;

use crate::error::FormatError;
use crate::render::{render_part, render_parts, Date};
use crate::tokenize::{lemma_split_only_separators, only_separators, split, split_format};
use crate::tokens::{
    is_separator,
        lemma_separator_piece, lemma_spelling_names_part, part_named, part_spelling, separator_char,
    FormatPart,
};

verus! {

/// The parts spelled by `pieces`, in order, or the first piece that spells
/// none.
pub open spec fn resolve_all(pieces: Seq<Seq<char>>) -> Result<Seq<FormatPart>, Seq<char>>
    decreases pieces.len(),
{
    if pieces.len() == 0 {
        Ok(seq![])
    } else {
        match resolve_all(pieces.drop_last()) {
            Err(bad) => Err(bad),
            Ok(parts) => match part_named(pieces.last()) {
                Some(p) => Ok(parts.push(p)),
                None => Err(pieces.last()),
            },
        }
    }
}

/// Some part is a section.
pub open spec fn has_section(parts: Seq<FormatPart>) -> bool {
    exists|i: int| 0 <= i < parts.len() && #[trigger] parts[i] is Section
}

/// `r` is what rendering `date` by `pattern` gives: the first unsupported
/// piece of the pattern, else no part found for a pattern without a
/// section (empty, or separators only), else the rendering of all its parts.
pub open spec fn formats_as(r: Result<String, FormatError>, date: Date, pattern: Seq<char>) -> bool {
    match resolve_all(split(pattern)) {
        Err(bad) => r matches Err(FormatError::PartNotSupported(s)) && s@ == bad,
        Ok(parts) => if !has_section(parts) {
            r matches Err(FormatError::NoPartFound)
        } else {
            r matches Ok(s) && s@ == render_parts(parts, date)
        },
    }
}

/// Once a prefix of the pieces holds an unsupported one, so does every
/// longer prefix.
proof fn lemma_resolve_all_fails(pieces: Seq<Seq<char>>, i: int, j: int)
    requires
        0 <= i <= j <= pieces.len(),
        resolve_all(pieces.take(i)) is Err,
    ensures
        resolve_all(pieces.take(j)) == resolve_all(pieces.take(i)),
    decreases j - i,
{
    if j > i {
        lemma_resolve_all_fails(pieces, i, j - 1);
        assert(pieces.take(j).drop_last() =~= pieces.take(j - 1));
    }
}

/// Renders `date` by `pattern`.
pub fn format_date(date: &Date, pattern: &str) -> (r: Result<String, FormatError>)
    requires
        date.wf(),
    ensures
        formats_as(r, *date, pattern@),
{
    let pieces = split_format(pattern);
    let ghost all = split(pattern@);
    let mut parts: Vec<FormatPart> = Vec::new();
    let mut seen_section = false;
    let mut i: usize = 0;
    assert(all.take(0) =~= Seq::<Seq<char>>::empty());
    while i < pieces.len()
        invariant
            all == split(pattern@),
            pieces.deep_view() == all,
            i <= pieces.len(),
            resolve_all(all.take(i as int)) == Ok::<Seq<FormatPart>, Seq<char>>(parts@),
            seen_section == has_section(parts@),
        decreases pieces.len() - i,
    {
        let ghost piece = pieces@[i as int]@;
        assert(all[i as int] == piece);
        assert(all.take(i + 1).drop_last() =~= all.take(i as int));
        match FormatPart::resolve(pieces[i].as_str()) {
            Ok(p) => {
                let ghost before = parts@;
                parts.push(p);
                proof {
                    if has_section(before) {
                        let k = choose|k: int| 0 <= k < before.len() && #[trigger] before[k] is Section;
                        assert(parts@[k] == before[k]);
                    }
                    if has_section(parts@) && !(p is Section) {
                        let k = choose|k: int| 0 <= k < parts@.len() && #[trigger] parts@[k] is Section;
                        assert(k < before.len() && before[k] == parts@[k]);
                    }
                    if p is Section {
                        assert(parts@[before.len() as int] is Section);
                    }
                }
                if let FormatPart::Section(_) = p {
                    seen_section = true;
                }
            },
            Err(e) => {
                proof {
                    assert(all.take(i + 1).last() == piece);
                    assert(resolve_all(all.take(i + 1)) == Err::<Seq<FormatPart>, Seq<char>>(
                        piece,
                    ));
                    lemma_resolve_all_fails(all, i + 1, all.len() as int);
                    assert(all.take(all.len() as int) =~= all);
                }
                return Err(e);
            },
        }
        i = i + 1;
    }
    assert(all.take(i as int) =~= all);
    if !seen_section {
        return Err(FormatError::NoPartFound);
    }
    let mut out = String::new();
    let mut j: usize = 0;
    assert(parts@.take(0) =~= Seq::<FormatPart>::empty());
    while j < parts.len()
        invariant
            j <= parts.len(),
            date.wf(),
            out@ == render_parts(parts@.take(j as int), *date),
        decreases parts.len() - j,
    {
        assert(parts@.take(j + 1).drop_last() =~= parts@.take(j as int));
        match parts[j] {
            FormatPart::Section(section) => {
                let piece = section.format(date);
                out.append(piece.as_str());
            },
            FormatPart::Separator(separator) => {
                out.append(separator.value());
            },
        }
        proof {
            assert(render_part(parts@[j as int], *date) == render_part(
                parts@.take(j + 1).last(),
                *date,
            ));
        }
        j = j + 1;
    }
    assert(parts@.take(j as int) =~= parts@);
    Ok(out)
}

/// Rendering is a function of the date and the pattern alone: two results
/// for the same date and pattern are the same text or the same error.
pub proof fn lemma_format_determined(
    r1: Result<String, FormatError>,
    r2: Result<String, FormatError>,
    date: Date,
    pattern: Seq<char>,
)
    requires
        formats_as(r1, date, pattern),
        formats_as(r2, date, pattern),
    ensures
        r1 is Ok <==> r2 is Ok,
        r1 is Ok ==> r1->Ok_0@ == r2->Ok_0@,
        r1 is Err ==> match (r1->Err_0, r2->Err_0) {
            (FormatError::PartNotSupported(a), FormatError::PartNotSupported(b)) => a@ == b@,
            (FormatError::NoPartFound, FormatError::NoPartFound) => true,
            _ => false,
        },
{
}

/// A pattern fails for lack of parts exactly when it holds nothing but
/// separators (the empty pattern included).
pub proof fn lemma_no_part_iff_only_separators(pattern: Seq<char>)
    ensures
        (resolve_all(split(pattern)) matches Ok(parts) && !has_section(parts)) <==> only_separators(
            pattern,
        ),
{
    let pieces = split(pattern);
    lemma_split_only_separators(pattern);
    lemma_resolve_all_ok(pieces);
    if only_separators(pattern) {
        assert forall|i: int| 0 <= i < pieces.len() implies #[trigger] part_named(
            pieces[i],
        ) is Some by {
            lemma_separator_piece(pieces[i][0]);
            assert(pieces[i] =~= seq![pieces[i][0]]);
        }
        let parts = resolve_all(pieces)->Ok_0;
        assert forall|i: int| 0 <= i < parts.len() implies !(#[trigger] parts[i] is Section) by {
            lemma_separator_piece(pieces[i][0]);
            assert(pieces[i] =~= seq![pieces[i][0]]);
            assert(part_named(pieces[i]) == Some(parts[i]));
        }
    }
    if resolve_all(pieces) is Ok && !has_section(resolve_all(pieces)->Ok_0) {
        let parts = resolve_all(pieces)->Ok_0;
        assert forall|i: int| 0 <= i < pieces.len() implies (#[trigger] pieces[i]).len() == 1
            && is_separator(pieces[i][0]) by {
            assert(part_named(pieces[i]) == Some(parts[i]));
            assert(!(parts[i] is Section));
            lemma_spelling_names_part(parts[i], pieces[i]);
            let v = parts[i]->Separator_0;
            assert(pieces[i] == seq![separator_char(v)]);
        }
    }
}

/// Resolution succeeds exactly when every piece spells a part, and then it
/// holds those parts, one for each piece, in order.
proof fn lemma_resolve_all_ok(pieces: Seq<Seq<char>>)
    ensures
        resolve_all(pieces) is Ok <==> forall|i: int|
            0 <= i < pieces.len() ==> (#[trigger] part_named(pieces[i])) is Some,
        resolve_all(pieces) matches Ok(parts) ==> parts.len() == pieces.len() && forall|i: int|
            0 <= i < pieces.len() ==> #[trigger] part_named(pieces[i]) == Some(parts[i]),
    decreases pieces.len(),
{
    if pieces.len() > 0 {
        let init = pieces.drop_last();
        let n = pieces.len() - 1;
        lemma_resolve_all_ok(init);
        assert forall|i: int| 0 <= i < n implies part_named(pieces[i]) == part_named(
            #[trigger] init[i],
        ) by {}
        if resolve_all(init) is Ok {
            let ip = resolve_all(init)->Ok_0;
            if part_named(pieces.last()) is Some {
                let parts = ip.push(part_named(pieces.last())->Some_0);
                assert(resolve_all(pieces) == Ok::<Seq<FormatPart>, Seq<char>>(parts));
                assert forall|i: int| 0 <= i < pieces.len() implies #[trigger] part_named(
                    pieces[i],
                ) == Some(parts[i]) by {
                    if i < n {
                        assert(part_named(init[i]) == Some(ip[i]));
                    }
                }
            } else {
                assert(!(part_named(pieces[n]) is Some));
            }
        } else {
            let k = choose|k: int| 0 <= k < init.len() && !(#[trigger] part_named(init[k]) is Some);
            assert(!(part_named(pieces[k]) is Some));
        }
    }
}

#[verifier::external_type_specification]
#[verifier::external_body]
pub struct ExNaiveDate(NaiveDate);

/// Relies on chrono's `Datelike::year` for `NaiveDate`: the year of the
/// calendar date.
#[verifier::external_body]
fn naive_year(date: &NaiveDate) -> (r: i32) {
    date.year()
}

/// Relies on chrono's `Datelike::month` for `NaiveDate`: the month number,
/// from 1 to 12.
#[verifier::external_body]
fn naive_month(date: &NaiveDate) -> (r: u32)
    ensures
        1 <= r <= 12,
{
    date.month()
}

/// Relies on chrono's `Datelike::day` for `NaiveDate`: the day of the month,
/// from 1 to 31.
#[verifier::external_body]
fn naive_day(date: &NaiveDate) -> (r: u32)
    ensures
        1 <= r <= 31,
{
    date.day()
}

impl Date {
    /// The year, month and day of a chrono date.
    pub fn from_naive(date: &NaiveDate) -> (r: Date)
        ensures
            r.wf(),
    {
        Date { year: naive_year(date), month: naive_month(date), day: naive_day(date) }
    }
}

/// Renders `date` by `pattern`. Whether it fails, and how, depends on the
/// pattern alone; on success the text is the rendering of the pattern's parts
/// for the year, month and day of `date`.
pub fn format(date: &NaiveDate, pattern: &str) -> (r: Result<String, FormatError>)
    ensures
        exists|d: Date| d.wf() && #[trigger] formats_as(r, d, pattern@),
{
    let d = Date::from_naive(date);
    format_date(&d, pattern)
}

} // verus!
