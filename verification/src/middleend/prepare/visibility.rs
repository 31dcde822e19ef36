//! Which symbols a scope sees: those of the scope itself and of the scopes
//! around it, and no others.
use crate::middleend::prepare::{ScopeView, Symbol, SymbolId};
use crate::middleend::prepare::model::{find_in_scope, lookup};
use vstd::prelude::*;

verus! {

/// Whether the scope `outer` is the scope `inner` or lies around it: it is
/// reached from `inner` by going from scope to parent.
pub open spec fn encloses(scopes: Seq<ScopeView>, outer: int, inner: int) -> bool
    decreases inner,
{
    if inner < 0 || inner >= scopes.len() {
        false
    } else if outer == inner {
        true
    } else {
        match scopes[inner].parent {
            Some(parent) => parent.0 < inner && encloses(scopes, outer, parent.0 as int),
            None => false,
        }
    }
}

/// What the search in one scope finds, from position `k` of its list on: the
/// first symbol of the name, or nothing where no symbol has the name.
pub proof fn lemma_find_in_scope(symbols: Seq<Symbol>, scope: ScopeView, name: Seq<char>, k: int)
    requires
        0 <= k,
    ensures
        match find_in_scope(symbols, scope, name, k) {
            Some(found) => exists|i: int|
                k <= i < scope.symbols.len() && #[trigger] scope.symbols[i] == found
                    && symbols[found.0 as int].name@ == name,
            None => forall|i: int|
                k <= i < scope.symbols.len() ==> symbols[(
                #[trigger] scope.symbols[i]).0 as int].name@ != name,
        },
    decreases scope.symbols.len() - k,
{
    if k < scope.symbols.len() {
        if symbols[scope.symbols[k].0 as int].name@ == name {
            assert(scope.symbols[k] == find_in_scope(symbols, scope, name, k)->0);
        } else {
            lemma_find_in_scope(symbols, scope, name, k + 1);
        }
    }
}

/// A symbol that is declared in the scope `declared` is seen from that scope
/// and from every scope inside it: looking up its name from the scope `from`
/// finds a symbol of that name, which is the symbol itself unless a symbol of
/// the same name stands before it in the scope or in a scope further inside.
pub proof fn lemma_declared_symbol_is_seen(
    scopes: Seq<ScopeView>,
    symbols: Seq<Symbol>,
    declared: int,
    from: int,
    sym: SymbolId,
)
    requires
        0 <= declared < scopes.len(),
        scopes[declared].symbols.contains(sym),
        encloses(scopes, declared, from),
    ensures
        lookup(scopes, symbols, symbols[sym.0 as int].name@, from) is Some,
        symbols[lookup(scopes, symbols, symbols[sym.0 as int].name@, from)->Some_0.0 as int].name@
            == symbols[sym.0 as int].name@,
    decreases from,
{
    let name = symbols[sym.0 as int].name@;
    lemma_find_in_scope(symbols, scopes[from], name, 0);
    if find_in_scope(symbols, scopes[from], name, 0) is None {
        if declared == from {
            let i = choose|i: int|
                0 <= i < scopes[declared].symbols.len() && scopes[declared].symbols[i] == sym;
            assert(symbols[scopes[from].symbols[i].0 as int].name@ != name);
        } else {
            lemma_declared_symbol_is_seen(
                scopes,
                symbols,
                declared,
                scopes[from].parent->Some_0.0 as int,
                sym,
            );
        }
    }
}

/// A symbol that is declared in the scope `declared` and whose name no other
/// symbol bears, neither in that scope nor in a scope between it and the
/// scope `from` inside it, is what looking up its name from `from` finds.
pub proof fn lemma_unshadowed_symbol_is_found(
    scopes: Seq<ScopeView>,
    symbols: Seq<Symbol>,
    declared: int,
    from: int,
    sym: SymbolId,
)
    requires
        0 <= declared < scopes.len(),
        scopes[declared].symbols.contains(sym),
        encloses(scopes, declared, from),
        forall|between: int, i: int|
            encloses(scopes, declared, between) && encloses(scopes, between, from) && 0 <= i < (
            #[trigger] scopes[between]).symbols.len() && symbols[(
            #[trigger] scopes[between].symbols[i]).0 as int].name@ == symbols[sym.0 as int].name@
                ==> scopes[between].symbols[i] == sym,
    ensures
        lookup(scopes, symbols, symbols[sym.0 as int].name@, from) == Some(sym),
    decreases from,
{
    let name = symbols[sym.0 as int].name@;
    lemma_find_in_scope(symbols, scopes[from], name, 0);
    lemma_encloses_in_range(scopes, declared, from);
    assert(encloses(scopes, from, from));
    match find_in_scope(symbols, scopes[from], name, 0) {
        Some(found) => {
            let i = choose|i: int|
                0 <= i < scopes[from].symbols.len() && #[trigger] scopes[from].symbols[i] == found
                    && symbols[found.0 as int].name@ == name;
            assert(scopes[from].symbols[i] == sym);
        },
        None => {
            if declared == from {
                let i = choose|i: int|
                    0 <= i < scopes[declared].symbols.len() && scopes[declared].symbols[i] == sym;
                assert(symbols[scopes[from].symbols[i].0 as int].name@ != name);
            } else {
                let parent = scopes[from].parent->Some_0.0 as int;
                assert forall|between: int, i: int|
                    encloses(scopes, declared, between) && encloses(scopes, between, parent) && 0
                        <= i < (#[trigger] scopes[between]).symbols.len() && symbols[(
                    #[trigger] scopes[between].symbols[i]).0 as int].name@ == name
                    implies scopes[between].symbols[i] == sym by {
                    assert(encloses(scopes, between, from)) by {
                        lemma_encloses_in_range(scopes, between, parent);
                    }
                }
                lemma_unshadowed_symbol_is_found(scopes, symbols, declared, parent, sym);
            }
        },
    }
}

/// What a lookup finds is declared, under the name that was looked up, in the
/// scope that the lookup started from or in a scope around it.
pub proof fn lemma_seen_symbol_is_declared_around(
    scopes: Seq<ScopeView>,
    symbols: Seq<Symbol>,
    name: Seq<char>,
    from: int,
)
    ensures
        lookup(scopes, symbols, name, from) matches Some(found) ==> symbols[found.0 as int].name@
            == name && exists|around: int|
            encloses(scopes, around, from) && (#[trigger] scopes[around]).symbols.contains(found),
    decreases from,
{
    if 0 <= from < scopes.len() {
        lemma_find_in_scope(symbols, scopes[from], name, 0);
        match find_in_scope(symbols, scopes[from], name, 0) {
            Some(found) => {
                assert(encloses(scopes, from, from));
                assert(scopes[from].symbols.contains(found));
            },
            None => {
                match scopes[from].parent {
                    Some(parent) => {
                        if parent.0 < from {
                            lemma_seen_symbol_is_declared_around(
                                scopes,
                                symbols,
                                name,
                                parent.0 as int,
                            );
                            if lookup(scopes, symbols, name, from) is Some {
                                let found = lookup(scopes, symbols, name, from)->0;
                                let around = choose|around: int|
                                    encloses(scopes, around, parent.0 as int) && (
                                    #[trigger] scopes[around]).symbols.contains(found);
                                assert(encloses(scopes, around, from));
                            }
                        }
                    },
                    None => {},
                }
            },
        }
    }
}

/// A symbol that is declared in the scope `declared` alone is not seen from
/// a scope that `declared` does not lie around, be it a sibling or a scope
/// further out: no lookup from there finds it, under any name.
pub proof fn lemma_symbol_is_hidden_elsewhere(
    scopes: Seq<ScopeView>,
    symbols: Seq<Symbol>,
    declared: int,
    from: int,
    sym: SymbolId,
    name: Seq<char>,
)
    requires
        forall|other: int|
            0 <= other < scopes.len() && other != declared ==> !(
            #[trigger] scopes[other]).symbols.contains(sym),
        !encloses(scopes, declared, from),
    ensures
        lookup(scopes, symbols, name, from) != Some(sym),
{
    lemma_seen_symbol_is_declared_around(scopes, symbols, name, from);
    if lookup(scopes, symbols, name, from) == Some(sym) {
        let around = choose|around: int|
            encloses(scopes, around, from) && (#[trigger] scopes[around]).symbols.contains(sym);
        lemma_encloses_in_range(scopes, around, from);
        assert(around == declared);
    }
}

/// Only a scope that exists lies around a scope.
pub proof fn lemma_encloses_in_range(scopes: Seq<ScopeView>, outer: int, inner: int)
    requires
        encloses(scopes, outer, inner),
    ensures
        0 <= outer <= inner < scopes.len(),
    decreases inner,
{
    if outer != inner {
        lemma_encloses_in_range(scopes, outer, scopes[inner].parent->Some_0.0 as int);
    }
}

} // verus!
