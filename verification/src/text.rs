//! Searching in text.
use vstd::prelude::*;
use vstd::string::*;

verus! {

/// `pattern` stands in `text` from position `at` on.
pub open spec fn stands_at(text: Seq<char>, pattern: Seq<char>, at: int) -> bool {
    &&& 0 <= at
    &&& at + pattern.len() <= text.len()
    &&& text.subrange(at, at + pattern.len()) == pattern
}

/// `pattern` stands somewhere in `text`.
pub open spec fn contains_text(text: Seq<char>, pattern: Seq<char>) -> bool {
    exists|at: int| stands_at(text, pattern, at)
}

/// The characters of a string.
pub(crate) fn chars_of(s: &str) -> (r: Vec<char>)
    ensures
        r@ == s@,
{
    let mut r: Vec<char> = Vec::new();
    for c in it: s.chars()
        invariant
            it.seq() == s@,
            r@ == s@.take(it.index() as int),
    {
        r.push(c);
        proof {
            assert(s@.take(it.index() as int + 1) =~= s@.take(it.index() as int).push(c));
        }
    }
    proof {
        assert(s@.take(s@.len() as int) =~= s@);
    }
    r
}

/// Whether `pattern` stands somewhere in `text`.
pub(crate) fn contains(text: &str, pattern: &str) -> (r: bool)
    ensures
        r == contains_text(text@, pattern@),
{
    let t: Vec<char> = chars_of(text);
    let p: Vec<char> = chars_of(pattern);
    if p.len() > t.len() {
        return false;
    }
    let last: usize = t.len() - p.len();
    let mut at: usize = 0;
    while at <= last
        invariant
            t@ == text@,
            p@ == pattern@,
            last + p.len() == t.len(),
            at <= last + 1,
            forall|k: int| 0 <= k < at ==> !stands_at(text@, pattern@, k),
        decreases last + 1 - at,
    {
        let mut i: usize = 0;
        while i < p.len() && t[at + i] == p[i]
            invariant
                t@ == text@,
                p@ == pattern@,
                last + p.len() == t.len(),
                at <= last,
                i <= p.len(),
                forall|k: int| 0 <= k < i ==> t@[at + k] == p@[k],
            decreases p.len() - i,
        {
            i += 1;
        }
        if i == p.len() {
            assert(text@.subrange(at as int, at + pattern@.len()) =~= pattern@);
            assert(stands_at(text@, pattern@, at as int));
            return true;
        }
        assert(text@.subrange(at as int, at + pattern@.len())[i as int] != pattern@[i as int]);
        if at == last {
            return false;
        }
        at += 1;
    }
    false
}

/// A text contains a pattern exactly if, from some position on, its characters are those of the
/// pattern, one after the other.
pub proof fn law_containing_is_standing_somewhere(text: Seq<char>, pattern: Seq<char>)
    ensures
        contains_text(text, pattern) <==> exists|before: Seq<char>, after: Seq<char>|
            #![trigger before + pattern + after]
            text == before + pattern + after,
{
    if contains_text(text, pattern) {
        let at = choose|at: int| stands_at(text, pattern, at);
        let before = text.take(at);
        let after = text.skip(at + pattern.len());
        assert(text =~= before + pattern + after);
    }
    if exists|before: Seq<char>, after: Seq<char>|
        #![trigger before + pattern + after]
        text == before + pattern + after {
        let (before, after) = choose|before: Seq<char>, after: Seq<char>|
            #![trigger before + pattern + after]
            text == before + pattern + after;
        let at = before.len() as int;
        assert(text.subrange(at, at + pattern.len()) =~= pattern);
        assert(stands_at(text, pattern, at));
    }
}

} // verus!
