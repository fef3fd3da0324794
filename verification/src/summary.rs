use vstd::prelude::*;

use crate::text::{decimal, decimal_string, join, joined, texts};

verus! {

/// A count with its noun: nothing for a count of 0, the noun `one` for a count
/// of 1, the noun `many` otherwise.
pub open spec fn counted(count: nat, one: Seq<char>, many: Seq<char>) -> Seq<Seq<char>> {
    if count == 0 {
        Seq::empty()
    } else if count == 1 {
        seq![decimal(count) + one]
    } else {
        seq![decimal(count) + many]
    }
}

/// The line that sums a result up: the counts of errors, warnings and
/// advisories, as far as there are any, separated by commas.
pub open spec fn summary_text(errors: nat, warnings: nat, advisories: nat) -> Seq<char> {
    joined(
        counted(errors, " error"@, " errors"@) + counted(warnings, " warning"@, " warnings"@)
            + counted(advisories, " advisory"@, " advisories"@),
        ", "@,
    )
}

/// The note on the edges that branch off a step of the trunk.
pub open spec fn badge_text(count: nat) -> Seq<char> {
    if count == 1 {
        "+"@ + decimal(count) + " branch"@
    } else {
        "+"@ + decimal(count) + " branches"@
    }
}

/// Writes a count behind `parts` with its noun, unless it is 0.
fn push_counted(parts: &mut Vec<String>, count: usize, one: &str, many: &str)
    ensures
        texts(final(parts)@) == texts(old(parts)@) + counted(count as nat, one@, many@),
{
    let ghost before = texts(parts@);
    if count == 0 {
        assert(texts(parts@) =~= before + counted(count as nat, one@, many@));
    } else {
        let mut part = decimal_string(count);
        if count == 1 {
            part.append(one);
        } else {
            part.append(many);
        }
        parts.push(part);
        assert(texts(parts@) =~= before + counted(count as nat, one@, many@));
    }
}

/// Sums a result up in one line, such as `2 errors, 1 warning`. The line is
/// empty where all counts are 0.
pub fn summary_line(errors: usize, warnings: usize, advisories: usize) -> (s: String)
    ensures
        s@ == summary_text(errors as nat, warnings as nat, advisories as nat),
{
    let mut parts: Vec<String> = Vec::new();
    assert(texts(parts@) =~= Seq::<Seq<char>>::empty());
    push_counted(&mut parts, errors, " error", " errors");
    push_counted(&mut parts, warnings, " warning", " warnings");
    push_counted(&mut parts, advisories, " advisory", " advisories");
    assert(texts(parts@) =~= counted(errors as nat, " error"@, " errors"@) + counted(
        warnings as nat,
        " warning"@,
        " warnings"@,
    ) + counted(advisories as nat, " advisory"@, " advisories"@));
    join(&parts, ", ")
}

/// Writes the note on the edges that branch off a step, such as `+2 branches`.
pub fn branch_badge(count: usize) -> (s: String)
    ensures
        s@ == badge_text(count as nat),
{
    let mut s = String::from_str("+");
    let number = decimal_string(count);
    s.append(number.as_str());
    if count == 1 {
        s.append(" branch");
    } else {
        s.append(" branches");
    }
    s
}

} // verus!
