//! Bytecode that is nested and closed opens and closes in pairs: every start
//! has its end behind it, and only one.
use crate::middleend::bytecode::{
    balanced, open_after, open_markers, starts_once, Bytecode, BytecodeData, Marker,
};
use vstd::prelude::*;

verus! {

/// What the bytecode `data` opens, if it is a start.
pub open spec fn opens(data: BytecodeData) -> Option<Marker> {
    match data {
        BytecodeData::ScopeStart(id) => Some(Marker::Scope(id)),
        BytecodeData::FunStart(id) => Some(Marker::Fun(id)),
        _ => None,
    }
}

/// What the bytecode `data` closes, if it is an end.
pub open spec fn closes(data: BytecodeData) -> Option<Marker> {
    match data {
        BytecodeData::ScopeEnd(id) => Some(Marker::Scope(id)),
        BytecodeData::FunEnd(id) => Some(Marker::Fun(id)),
        _ => None,
    }
}

/// The number of starts in `code` that open `m`.
pub open spec fn count_starts(code: Seq<Bytecode>, m: Marker) -> nat
    decreases code.len(),
{
    if code.len() == 0 {
        0
    } else if opens(code.last().tag) == Some(m) {
        count_starts(code.drop_last(), m) + 1
    } else {
        count_starts(code.drop_last(), m)
    }
}

/// The number of ends in `code` that close `m`.
pub open spec fn count_ends(code: Seq<Bytecode>, m: Marker) -> nat
    decreases code.len(),
{
    if code.len() == 0 {
        0
    } else if closes(code.last().tag) == Some(m) {
        count_ends(code.drop_last(), m) + 1
    } else {
        count_ends(code.drop_last(), m)
    }
}

/// The number of times that `m` stands among what is open.
pub open spec fn count_open(open: Seq<Marker>, m: Marker) -> nat
    decreases open.len(),
{
    if open.len() == 0 {
        0
    } else if open.last() == m {
        count_open(open.drop_last(), m) + 1
    } else {
        count_open(open.drop_last(), m)
    }
}

/// Bytecode that is nested up to its end is nested up to every place before.
pub proof fn lemma_prefix_is_nested(code: Seq<Bytecode>, n: int)
    requires
        open_markers(code) is Some,
        0 <= n <= code.len(),
    ensures
        open_markers(code.take(n)) is Some,
    decreases code.len(),
{
    if n == code.len() {
        assert(code.take(n) =~= code);
    } else {
        assert(code.drop_last().take(n) =~= code.take(n));
        lemma_prefix_is_nested(code.drop_last(), n);
    }
}

/// In nested bytecode, what was opened is closed or still open: the starts of
/// `m` are as many as its ends and its places among what is open together.
pub proof fn lemma_starts_are_ends_and_open(code: Seq<Bytecode>, m: Marker)
    requires
        open_markers(code) is Some,
    ensures
        count_starts(code, m) == count_ends(code, m) + count_open(open_markers(code)->0, m),
    decreases code.len(),
{
    if code.len() > 0 {
        let before = code.drop_last();
        lemma_starts_are_ends_and_open(before, m);
        let open = open_markers(before)->0;
        match code.last().tag {
            BytecodeData::ScopeStart(id) => {
                assert(open.push(Marker::Scope(id)).drop_last() =~= open);
            },
            BytecodeData::FunStart(id) => {
                assert(open.push(Marker::Fun(id)).drop_last() =~= open);
            },
            _ => {},
        }
    }
}

/// Where none of `code` opens `m`, its starts of `m` are none.
pub proof fn lemma_no_starts(code: Seq<Bytecode>, m: Marker)
    requires
        forall|j: int| 0 <= j < code.len() ==> opens((#[trigger] code[j]).tag) != Some(m),
    ensures
        count_starts(code, m) == 0,
    decreases code.len(),
{
    if code.len() > 0 {
        let before = code.drop_last();
        assert forall|j: int| 0 <= j < before.len() implies opens((#[trigger] before[j]).tag)
            != Some(m) by {
            assert(before[j] == code[j]);
        }
        lemma_no_starts(before, m);
    }
}

/// Where only the place `i` of `code` opens `m`, its starts of `m` are one.
pub proof fn lemma_one_start(code: Seq<Bytecode>, m: Marker, i: int)
    requires
        0 <= i < code.len(),
        opens(code[i].tag) == Some(m),
        forall|j: int| 0 <= j < code.len() && j != i ==> opens((#[trigger] code[j]).tag) != Some(m),
    ensures
        count_starts(code, m) == 1,
    decreases code.len(),
{
    let before = code.drop_last();
    if i == code.len() - 1 {
        assert forall|j: int| 0 <= j < before.len() implies opens((#[trigger] before[j]).tag)
            != Some(m) by {
            assert(before[j] == code[j]);
        }
        lemma_no_starts(before, m);
    } else {
        assert forall|j: int| 0 <= j < before.len() && j != i implies opens(
            (#[trigger] before[j]).tag,
        ) != Some(m) by {
            assert(before[j] == code[j]);
        }
        assert(before[i] == code[i]);
        lemma_one_start(before, m, i);
    }
}

/// Where `code` has an end of `m`, it has one at some place; and where the
/// first `n` of `code` have none, that place is not among them.
pub proof fn lemma_end_behind(code: Seq<Bytecode>, m: Marker, n: int) -> (j: int)
    requires
        0 <= n <= code.len(),
        count_ends(code, m) > 0,
        count_ends(code.take(n), m) == 0,
    ensures
        n <= j < code.len(),
        closes(code[j].tag) == Some(m),
    decreases code.len(),
{
    if n == code.len() {
        assert(code.take(n) =~= code);
        0
    } else if closes(code.last().tag) == Some(m) {
        code.len() - 1
    } else {
        assert(code.drop_last().take(n) =~= code.take(n));
        lemma_end_behind(code.drop_last(), m, n)
    }
}

/// The law of nesting. In bytecode that is nested and closed and opens
/// every scope and function once, every start has one end of its own, and
/// that end stands behind it: a scope or function that starts at place `i`
/// is closed once, at a later place.
pub proof fn lemma_start_has_one_end_behind(code: Seq<Bytecode>, i: int) -> (j: int)
    requires
        balanced(code),
        starts_once(code),
        0 <= i < code.len(),
        opens(code[i].tag) is Some,
    ensures
        count_starts(code, opens(code[i].tag)->0) == 1,
        count_ends(code, opens(code[i].tag)->0) == 1,
        i < j < code.len(),
        closes(code[j].tag) == opens(code[i].tag),
{
    let m = opens(code[i].tag)->0;
    assert forall|k: int| 0 <= k < code.len() && k != i implies opens((#[trigger] code[k]).tag)
        != Some(m) by {
        if opens(code[k].tag) == Some(m) {
            if k < i {
                assert(code[k].tag is ScopeStart || code[k].tag is FunStart);
            } else {
                assert(code[i].tag is ScopeStart || code[i].tag is FunStart);
            }
        }
    }
    lemma_one_start(code, m, i);
    lemma_starts_are_ends_and_open(code, m);
    let upto = code.take(i + 1);
    lemma_prefix_is_nested(code, i + 1);
    lemma_starts_are_ends_and_open(upto, m);
    assert(upto.last() == code[i]);
    assert forall|k: int| 0 <= k < upto.len() && k != i implies opens((#[trigger] upto[k]).tag)
        != Some(m) by {
        assert(upto[k] == code[k]);
    }
    lemma_one_start(upto, m, i);
    lemma_prefix_is_nested(code, i);
    assert(upto.drop_last() =~= code.take(i));
    let open = open_markers(code.take(i))->0;
    assert(open_markers(upto) == open_after(open_markers(code.take(i)), code[i].tag));
    assert(open_markers(upto)->0 == open.push(m));
    assert(open.push(m).last() == m);
    lemma_end_behind(code, m, i + 1)
}

} // verus!
