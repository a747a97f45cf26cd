//! Character-string utilities shared by the resource identifiers and
//! the blocked-server list: splitting on a separator and joining parts
//! back, specified over character sequences.
use vstd::prelude::*;

verus! {

/// The parts of `s` between occurrences of `sep`, in order, keeping
/// empty parts; a string without the separator is one part.
pub open spec fn split_on(s: Seq<char>, sep: char) -> Seq<Seq<char>>
    decreases s.len(),
{
    if s.len() == 0 {
        seq![Seq::empty()]
    } else if s[0] == sep {
        seq![Seq::<char>::empty()] + split_on(s.drop_first(), sep)
    } else {
        let rest = split_on(s.drop_first(), sep);
        seq![seq![s[0]] + rest[0]] + rest.drop_first()
    }
}

/// The parts joined back with the separator between them.
pub open spec fn join_with(parts: Seq<Seq<char>>, sep: char) -> Seq<char>
    decreases parts.len(),
{
    if parts.len() == 0 {
        Seq::empty()
    } else if parts.len() == 1 {
        parts[0]
    } else {
        parts[0] + seq![sep] + join_with(parts.drop_first(), sep)
    }
}

/// Splitting always yields at least one part.
pub proof fn lemma_split_on_len(s: Seq<char>, sep: char)
    ensures
        split_on(s, sep).len() >= 1,
    decreases s.len(),
{
    if s.len() > 0 {
        lemma_split_on_len(s.drop_first(), sep);
    }
}

/// A string without the separator is a single part: itself.
pub proof fn lemma_split_on_no_sep(s: Seq<char>, sep: char)
    requires
        forall|t: int| 0 <= t < s.len() ==> s[t] != sep,
    ensures
        split_on(s, sep) =~~= seq![s],
    decreases s.len(),
{
    if s.len() > 0 {
        lemma_split_on_no_sep(s.drop_first(), sep);
        assert(seq![s[0]] + s.drop_first() =~= s);
    }
}

/// At the first separator, the split is the part before it followed by
/// the split of everything after it.
pub proof fn lemma_split_on_at_sep(s: Seq<char>, sep: char, m: int)
    requires
        0 <= m < s.len(),
        s[m] == sep,
        forall|t: int| 0 <= t < m ==> s[t] != sep,
    ensures
        split_on(s, sep) =~~= seq![s.take(m)] + split_on(s.skip(m + 1), sep),
    decreases m,
{
    if m == 0 {
        assert(s.take(0) =~= Seq::<char>::empty());
        assert(s.skip(1) =~= s.drop_first());
    } else {
        lemma_split_on_at_sep(s.drop_first(), sep, m - 1);
        lemma_split_on_len(s.drop_first().skip(m), sep);
        assert(s.drop_first().take(m - 1) =~= s.take(m).drop_first());
        assert(s.drop_first().skip(m) =~= s.skip(m + 1));
        assert(seq![s[0]] + s.take(m).drop_first() =~= s.take(m));
    }
}

/// Joining after adding one part on the right appends a separator and
/// that part, once there is something on the left.
pub proof fn lemma_join_with_push(parts: Seq<Seq<char>>, sep: char, last: Seq<char>)
    requires
        parts.len() >= 1,
    ensures
        join_with(parts.push(last), sep) =~~= join_with(parts, sep) + seq![sep] + last,
    decreases parts.len(),
{
    if parts.len() == 1 {
        assert(parts.push(last)[0] =~~= parts[0]);
        let d = parts.push(last).drop_first();
        assert(d =~~= seq![last]);
        assert(d == seq![last]);
        assert(join_with(d, sep) == last);
        assert(join_with(parts.push(last), sep) =~~= parts[0] + seq![sep] + last);
    } else {
        lemma_join_with_push(parts.drop_first(), sep, last);
        assert(parts.push(last).drop_first() =~~= parts.drop_first().push(last));
        assert(parts.push(last)[0] =~~= parts[0]);
        assert(parts[0] + seq![sep] + (join_with(parts.drop_first(), sep) + seq![sep] + last)
            =~~= (parts[0] + seq![sep] + join_with(parts.drop_first(), sep)) + seq![sep] + last);
    }
}

/// Splits a string on a separator character into owned parts, keeping
/// empty parts, as the mathematical `split_on` describes.
pub fn split_string(s: &str, sep: char) -> (r: Vec<String>)
    ensures
        r.deep_view() =~~= split_on(s@, sep),
{
    let n = s.unicode_len();
    let mut parts: Vec<String> = Vec::new();
    let mut start: usize = 0;
    let mut i: usize = 0;
    proof {
        assert(s@.skip(0) =~= s@);
        assert(parts.deep_view() =~~= Seq::<Seq<char>>::empty());
        assert(parts.deep_view() + split_on(s@, sep) =~~= split_on(s@, sep));
    }
    while i < n
        invariant
            n == s@.len(),
            start <= i <= n,
            forall|t: int| start <= t < i ==> s@[t] != sep,
            split_on(s@, sep) =~~= parts.deep_view() + split_on(s@.skip(start as int), sep),
        decreases n - i,
    {
        let c = s.get_char(i);
        if c == sep {
            let ghost pre = parts.deep_view();
            let part = String::from_str(s.substring_char(start, i));
            parts.push(part);
            proof {
                let u = s@.skip(start as int);
                lemma_split_on_at_sep(u, sep, i - start);
                assert(u.take(i - start) =~= s@.subrange(start as int, i as int));
                assert(u.skip(i - start + 1) =~= s@.skip(i + 1));
                assert(parts.deep_view() =~~= pre.push(s@.subrange(start as int, i as int)));
                assert(pre + (seq![u.take(i - start)] + split_on(u.skip(i - start + 1), sep))
                    =~~= parts.deep_view() + split_on(s@.skip(i + 1), sep));
            }
            start = i + 1;
        }
        i = i + 1;
    }
    let ghost pre = parts.deep_view();
    let part = String::from_str(s.substring_char(start, n));
    parts.push(part);
    proof {
        let u = s@.skip(start as int);
        lemma_split_on_no_sep(u, sep);
        assert(u =~= s@.subrange(start as int, n as int));
        assert(parts.deep_view() =~~= pre.push(u));
        assert(pre + seq![u] =~~= parts.deep_view());
    }
    parts
}

} // verus!
