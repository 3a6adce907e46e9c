//! Searching a byte string for another byte string.
use vstd::prelude::*;

verus! {

/// `needle` stands in `haystack` at index `at`.
pub open spec fn occurs_at(haystack: Seq<u8>, needle: Seq<u8>, at: int) -> bool {
    &&& 0 <= at
    &&& at + needle.len() <= haystack.len()
    &&& haystack.subrange(at, at + needle.len()) == needle
}

/// `at` is the least index at which `needle` stands in `haystack`.
pub open spec fn first_at(haystack: Seq<u8>, needle: Seq<u8>, at: int) -> bool {
    &&& occurs_at(haystack, needle, at)
    &&& forall|before: int| 0 <= before < at ==> !#[trigger] occurs_at(haystack, needle, before)
}

/// `needle` stands nowhere in `haystack`.
pub open spec fn absent(haystack: Seq<u8>, needle: Seq<u8>) -> bool {
    forall|at: int| !#[trigger] occurs_at(haystack, needle, at)
}

/// The least index at which `needle` stands in `haystack`, if there is one.
pub open spec fn position(haystack: Seq<u8>, needle: Seq<u8>) -> Option<int> {
    if absent(haystack, needle) {
        None
    } else {
        Some(choose|at: int| first_at(haystack, needle, at))
    }
}

/// Where `needle` stands somewhere, it stands somewhere first.
proof fn lemma_first_exists(haystack: Seq<u8>, needle: Seq<u8>, at: int)
    requires
        occurs_at(haystack, needle, at),
    ensures
        exists|first: int| first_at(haystack, needle, first),
    decreases at,
{
    if forall|before: int| 0 <= before < at ==> !#[trigger] occurs_at(haystack, needle, before) {
        assert(first_at(haystack, needle, at));
    } else {
        let before = choose|before: int|
            0 <= before < at && #[trigger] occurs_at(haystack, needle, before);
        lemma_first_exists(haystack, needle, before);
    }
}

/// `position` is the first occurrence, and `None` exactly where there is none.
pub proof fn lemma_position(haystack: Seq<u8>, needle: Seq<u8>)
    ensures
        match position(haystack, needle) {
            Some(at) => first_at(haystack, needle, at),
            None => absent(haystack, needle),
        },
{
    if !absent(haystack, needle) {
        let at = choose|at: int| #[trigger] occurs_at(haystack, needle, at);
        lemma_first_exists(haystack, needle, at);
    }
}

/// A first occurrence is the position.
pub proof fn lemma_position_is(haystack: Seq<u8>, needle: Seq<u8>, at: int)
    requires
        first_at(haystack, needle, at),
    ensures
        position(haystack, needle) == Some(at),
{
    lemma_position(haystack, needle);
    let found = position(haystack, needle)->0;
    assert(occurs_at(haystack, needle, at));
    assert(occurs_at(haystack, needle, found));
}

/// What stands within the first bytes does not depend on the bytes behind them.
pub proof fn lemma_occurs_before(head: Seq<u8>, tail: Seq<u8>, needle: Seq<u8>, at: int)
    requires
        at + needle.len() <= head.len(),
    ensures
        occurs_at(head + tail, needle, at) == occurs_at(head, needle, at),
{
    if 0 <= at {
        assert((head + tail).subrange(at, at + needle.len()) =~= head.subrange(
            at,
            at + needle.len(),
        ));
    }
}

/// What stands behind the first bytes does not depend on them.
pub proof fn lemma_occurs_behind(head: Seq<u8>, tail: Seq<u8>, needle: Seq<u8>, at: int)
    requires
        0 <= at,
    ensures
        occurs_at(head + tail, needle, head.len() + at) == occurs_at(tail, needle, at),
{
    if at + needle.len() <= tail.len() {
        assert((head + tail).subrange(head.len() + at, head.len() + at + needle.len())
            =~= tail.subrange(at, at + needle.len()));
    }
}

/// Bytes that come later do not move a position.
pub proof fn lemma_position_extended(head: Seq<u8>, tail: Seq<u8>, needle: Seq<u8>)
    requires
        position(head, needle) is Some,
    ensures
        position(head + tail, needle) == position(head, needle),
{
    lemma_position(head, needle);
    let at = position(head, needle)->0;
    lemma_occurs_before(head, tail, needle, at);
    assert forall|before: int| 0 <= before < at implies !#[trigger] occurs_at(
        head + tail,
        needle,
        before,
    ) by {
        lemma_occurs_before(head, tail, needle, before);
    }
    lemma_position_is(head + tail, needle, at);
}

/// Bytes that stop short of the end of the first needle hold none.
pub proof fn lemma_absent_before(head: Seq<u8>, tail: Seq<u8>, needle: Seq<u8>, at: int)
    requires
        first_at(head + tail, needle, at),
        head.len() < at + needle.len(),
    ensures
        absent(head, needle),
{
    assert forall|earlier: int| !#[trigger] occurs_at(head, needle, earlier) by {
        if occurs_at(head, needle, earlier) {
            lemma_occurs_before(head, tail, needle, earlier);
        }
    }
}

/// The first needle behind bytes that it does not stand in.
pub proof fn lemma_first_behind(head: Seq<u8>, tail: Seq<u8>, needle: Seq<u8>, at: int)
    requires
        first_at(head + tail, needle, at),
        head.len() <= at,
    ensures
        first_at(tail, needle, at - head.len()),
{
    lemma_occurs_behind(head, tail, needle, at - head.len());
    assert forall|before: int| 0 <= before < at - head.len() implies !#[trigger] occurs_at(
        tail,
        needle,
        before,
    ) by {
        lemma_occurs_behind(head, tail, needle, before);
        assert(!occurs_at(head + tail, needle, head.len() + before));
    }
}

/// The index of the first occurrence of `needle` in `haystack`: `memchr::memmem::find`. An empty
/// needle stands at index 0.
#[verifier::external_body]
pub(crate) fn find(haystack: &[u8], needle: &[u8]) -> (found: Option<usize>)
    ensures
        match found {
            Some(at) => first_at(haystack@, needle@, at as int) && at + needle@.len() <= usize::MAX,
            None => absent(haystack@, needle@),
        },
{
    memchr::memmem::find(haystack, needle)
}

} // verus!
