//! Rate-limit groups of host names.
use crate::text::chars_of;
use vstd::prelude::*;
use vstd::string::*;

verus! {

/// Position of the last dot of `s`; -1 when there is none.
pub open spec fn last_dot(s: Seq<char>) -> int
    decreases s.len(),
{
    if s.len() == 0 {
        -1
    } else if s.last() == '.' {
        s.len() - 1
    } else {
        last_dot(s.drop_last())
    }
}

/// Where the last two dot-separated segments of `host` begin: right after the second-to-last dot,
/// or at the front when there are fewer than two dots.
pub open spec fn group_start(host: Seq<char>) -> int {
    let last = last_dot(host);
    if last < 0 {
        0
    } else {
        last_dot(host.take(last)) + 1
    }
}

/// The last two dot-separated segments of `host`, or all of it when it has fewer.
pub open spec fn rate_limit_group(host: Seq<char>) -> Seq<char> {
    host.skip(group_start(host))
}

/// Extract the rate-limit group from a URL host.
///
/// Takes the last two segments of the hostname, which groups subdomains belonging to the same
/// provider:
/// - `arb-mainnet.g.alchemy.com` gives `alchemy.com`
/// - `lb.drpc.org` gives `drpc.org`
/// - `localhost` gives `localhost`
pub fn extract_rate_limit_domain(host: &str) -> (group: &str)
    ensures
        group@ == rate_limit_group(host@),
{
    let chars: Vec<char> = chars_of(host);
    let last: usize = after_last_dot(&chars, chars.len());
    proof {
        lemma_last_dot(host@);
        assert(host@.take(host@.len() as int) =~= host@);
    }
    let start: usize = if last == 0 {
        0
    } else {
        after_last_dot(&chars, last - 1)
    };
    proof {
        if last > 0 {
            lemma_last_dot(host@.take(last - 1));
        }
        assert(host@.subrange(start as int, host@.len() as int) =~= host@.skip(start as int));
    }
    host.substring_char(start, chars.len())
}

/// One past the last dot among the first `end` characters; 0 when there is none.
fn after_last_dot(chars: &Vec<char>, end: usize) -> (r: usize)
    requires
        end <= chars.len(),
    ensures
        r == last_dot(chars@.take(end as int)) + 1,
        r <= end,
{
    let mut i: usize = end;
    while i > 0 && chars[i - 1] != '.'
        invariant
            i <= end <= chars.len(),
            last_dot(chars@.take(end as int)) == last_dot(chars@.take(i as int)),
        decreases i,
    {
        assert(chars@.take(i as int).drop_last() =~= chars@.take(i - 1));
        i -= 1;
    }
    i
}

/// `last_dot` points at a dot, and only other characters follow it.
proof fn lemma_last_dot(s: Seq<char>)
    ensures
        -1 <= last_dot(s) < s.len(),
        last_dot(s) >= 0 ==> s[last_dot(s)] == '.',
        forall|k: int| last_dot(s) < k < s.len() ==> s[k] != '.',
    decreases s.len(),
{
    if s.len() > 0 && s.last() != '.' {
        lemma_last_dot(s.drop_last());
        assert forall|k: int| last_dot(s) < k < s.len() implies s[k] != '.' by {
            if k < s.len() - 1 {
                assert(s.drop_last()[k] == s[k]);
            }
        }
    }
}

/// `last_dot` is where the last dot is.
proof fn lemma_last_dot_is(s: Seq<char>, at: int)
    requires
        -1 <= at < s.len(),
        at >= 0 ==> s[at] == '.',
        forall|k: int| at < k < s.len() ==> s[k] != '.',
    ensures
        last_dot(s) == at,
{
    lemma_last_dot(s);
}

/// Number of dots in `s`.
pub open spec fn dots(s: Seq<char>) -> nat
    decreases s.len(),
{
    if s.len() == 0 {
        0
    } else {
        dots(s.drop_last()) + if s.last() == '.' {
            1nat
        } else {
            0
        }
    }
}

/// Without a dot the count is zero, and only then.
proof fn lemma_dots_zero(s: Seq<char>)
    ensures
        dots(s) == 0 <==> forall|k: int| 0 <= k < s.len() ==> s[k] != '.',
    decreases s.len(),
{
    if s.len() > 0 {
        lemma_dots_zero(s.drop_last());
        if dots(s) == 0 {
            assert forall|k: int| 0 <= k < s.len() implies s[k] != '.' by {
                if k < s.len() - 1 {
                    assert(s.drop_last()[k] == s[k]);
                }
            }
        } else if forall|k: int| 0 <= k < s.len() ==> s[k] != '.' {
            assert forall|k: int| 0 <= k < s.len() - 1 implies s.drop_last()[k] != '.' by {
                assert(s[k] != '.');
            }
            assert(s[s.len() - 1] != '.');
        }
    }
}

/// A dot count splits at the last dot.
proof fn lemma_dots_split(s: Seq<char>)
    requires
        last_dot(s) >= 0,
    ensures
        dots(s) == dots(s.take(last_dot(s))) + 1,
    decreases s.len(),
{
    lemma_last_dot(s);
    if s.last() == '.' {
        assert(s.take(last_dot(s)) =~= s.drop_last());
    } else {
        lemma_last_dot(s.drop_last());
        lemma_dots_split(s.drop_last());
        assert(s.drop_last().take(last_dot(s)) =~= s.take(last_dot(s)));
    }
}

/// A rate-limit group is a suffix of its host with at most one dot, that is two segments; it is
/// the whole host exactly when the host has at most one dot.
pub proof fn law_group_is_two_segment_suffix(host: Seq<char>)
    ensures
        0 <= group_start(host) <= host.len(),
        host == host.take(group_start(host)) + rate_limit_group(host),
        dots(rate_limit_group(host)) <= 1,
        rate_limit_group(host) == host <==> dots(host) <= 1,
{
    lemma_last_dot(host);
    let last = last_dot(host);
    if last >= 0 {
        lemma_last_dot(host.take(last));
        let start = group_start(host);
        let group = rate_limit_group(host);
        assert(host.take(start) + group =~= host);
        lemma_dots_split(host);
        lemma_last_dot_is(group, last - start);
        lemma_dots_split(group);
        let first = group.take(last - start);
        assert forall|k: int| 0 <= k < first.len() implies first[k] != '.' by {
            assert(first[k] == host.take(last)[start + k]);
        }
        lemma_dots_zero(first);
        if start > 0 {
            lemma_dots_split(host.take(last));
        } else {
            assert(group =~= host);
        }
    } else {
        assert(rate_limit_group(host) =~= host);
        assert(host.take(0) + host =~= host);
        lemma_dots_zero(host);
    }
}

/// Extracting the group of a group changes nothing.
pub proof fn law_group_is_stable(host: Seq<char>)
    ensures
        rate_limit_group(rate_limit_group(host)) == rate_limit_group(host),
{
    law_group_is_two_segment_suffix(host);
    law_group_is_two_segment_suffix(rate_limit_group(host));
}

/// Behind another name and a dot, the last dot of a name stays where it is in the name; if it has
/// none, the dot in front of it is the last.
proof fn lemma_last_dot_behind(prefix: Seq<char>, name: Seq<char>)
    ensures
        last_dot(prefix + seq!['.'] + name) == prefix.len() + 1 + last_dot(name),
        last_dot(name) >= -1,
{
    let host = prefix + seq!['.'] + name;
    let shift = prefix.len() as int + 1;
    lemma_last_dot(name);
    let at = shift + last_dot(name);
    assert forall|k: int| at < k < host.len() implies host[k] != '.' by {
        assert(host[k] == name[k - shift]);
    }
    if last_dot(name) >= 0 {
        assert(host[at] == name[at - shift]);
    } else {
        assert(host[at] == '.');
    }
    lemma_last_dot_is(host, at);
}

/// Every subdomain of a name with a dot, however deep, belongs to the group of that name; so two
/// subdomains of one name belong to one group.
pub proof fn law_subdomains_share_group(prefix: Seq<char>, parent: Seq<char>)
    requires
        dots(parent) >= 1,
    ensures
        rate_limit_group(prefix + seq!['.'] + parent) == rate_limit_group(parent),
{
    let host = prefix + seq!['.'] + parent;
    let shift = prefix.len() as int + 1;
    lemma_last_dot(parent);
    lemma_dots_zero(parent);
    lemma_last_dot_behind(prefix, parent);
    let front = parent.take(last_dot(parent));
    assert(host.take(last_dot(host)) =~= prefix + seq!['.'] + front);
    lemma_last_dot(front);
    lemma_last_dot_behind(prefix, front);
    assert(host.skip(group_start(host)) =~= parent.skip(group_start(parent)));
}

/// A host is what stands before its group and the group. The group holds at most one dot. What
/// stands before it, if anything, ends in a dot, and then the group holds exactly one.
pub proof fn law_group_is_the_last_two_segments(host: Seq<char>) -> (before: Seq<char>)
    ensures
        host == before + rate_limit_group(host),
        forall|i: int, j: int|
            #![trigger rate_limit_group(host)[i], rate_limit_group(host)[j]]
            0 <= i < j < rate_limit_group(host).len() ==> rate_limit_group(host)[i] != '.'
                || rate_limit_group(host)[j] != '.',
        before.len() > 0 ==> before.last() == '.' && rate_limit_group(host).contains('.'),
{
    let start = group_start(host);
    let group = rate_limit_group(host);
    law_group_is_two_segment_suffix(host);
    lemma_last_dot(host);
    let last = last_dot(host);
    if last >= 0 {
        let front = host.take(last);
        lemma_last_dot(front);
        assert forall|i: int, j: int|
            #![trigger group[i], group[j]]
            0 <= i < j < group.len() implies group[i] != '.' || group[j] != '.' by {
            assert(group[i] == host[start + i]);
            assert(group[j] == host[start + j]);
            if start + j <= last {
                assert(front[start + i] == host[start + i]);
            }
        }
        if start > 0 {
            assert(host.take(start).last() == front[start - 1]);
            assert(group[last - start] == '.');
        }
    } else {
        assert forall|i: int| 0 <= i < group.len() implies (#[trigger] group[i]) != '.' by {
            assert(group[i] == host[i]);
        }
    }
    host.take(start)
}

} // verus!
