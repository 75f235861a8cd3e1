//! Strings as sequences of characters.

use vstd::prelude::*;
use vstd::string::*;

verus! {

/// The contents of a list of strings.
pub open spec fn texts(list: Seq<String>) -> Seq<Seq<char>> {
    Seq::new(list.len(), |i: int| list[i]@)
}

/// Whether `prefix` begins `s`.
pub open spec fn begins(s: Seq<char>, prefix: Seq<char>) -> bool {
    prefix.len() <= s.len() && s.take(prefix.len() as int) == prefix
}

/// `s` without the run of `c` at its end.
pub open spec fn trimmed_end(s: Seq<char>, c: char) -> Seq<char>
    decreases s.len(),
{
    if s.len() > 0 && s.last() == c {
        trimmed_end(s.drop_last(), c)
    } else {
        s
    }
}

/// The pieces of `s` between occurrences of `c`: one more than there are occurrences.
pub open spec fn pieces(s: Seq<char>, c: char) -> Seq<Seq<char>>
    decreases s.len(),
{
    if s.len() == 0 {
        seq![Seq::<char>::empty()]
    } else {
        let before = pieces(s.drop_last(), c);
        if s.last() == c {
            before.push(Seq::<char>::empty())
        } else {
            before.drop_last().push(before.last().push(s.last()))
        }
    }
}

/// What stands in `s` before the first `c`: all of it where there is none.
pub open spec fn before(s: Seq<char>, c: char) -> Seq<char>
    decreases s.len(),
{
    if s.len() == 0 || s[0] == c {
        Seq::empty()
    } else {
        seq![s[0]] + before(s.skip(1), c)
    }
}

/// `c` with the letters `A` to `Z` in lower case.
pub open spec fn ascii_lower(c: char) -> char {
    if 'A' <= c && c <= 'Z' {
        (c as u32 + 32) as char
    } else {
        c
    }
}

/// Whether two texts agree but for the case of ASCII letters.
pub open spec fn same_ignoring_case(a: Seq<char>, b: Seq<char>) -> bool {
    a.map_values(|c: char| ascii_lower(c)) == b.map_values(|c: char| ascii_lower(c))
}

/// Whether two strings hold the same text.
pub fn same(a: &str, b: &str) -> (r: bool)
    ensures
        r == (a@ == b@),
{
    a.to_owned() == b.to_owned()
}

/// The characters of `s`.
pub fn characters(s: &str) -> (r: Vec<char>)
    ensures
        r@ == s@,
{
    let mut out: Vec<char> = Vec::new();
    for c in it: s.chars()
        invariant
            it.seq() == s@,
            out@ == s@.take(it.index() as int),
    {
        assert(s@.take(it.index() as int + 1) == s@.take(it.index() as int).push(c));
        out.push(c);
    }
    assert(s@.take(s@.len() as int) == s@);
    out
}

/// Whether `s` begins with `prefix`.
pub fn starts_with(s: &str, prefix: &str) -> (r: bool)
    ensures
        r == begins(s@, prefix@),
{
    let n: usize = prefix.unicode_len();
    if n > s.unicode_len() {
        return false;
    }
    same(s.substring_char(0, n), prefix)
}

/// `s` without `prefix`, where it begins with it.
pub fn strip_prefix(s: &str, prefix: &str) -> (r: Option<String>)
    ensures
        r is Some <==> begins(s@, prefix@),
        r matches Some(rest) ==> rest@ == s@.skip(prefix@.len() as int),
{
    if !starts_with(s, prefix) {
        return None;
    }
    Some(s.substring_char(prefix.unicode_len(), s.unicode_len()).to_owned())
}

/// `s` without the run of `c` at its end.
pub fn trim_end(s: &str, c: char) -> (r: String)
    ensures
        r@ == trimmed_end(s@, c),
{
    let chars = characters(s);
    let mut n: usize = chars.len();
    assert(s@.take(n as int) == s@);
    while n > 0 && chars[n - 1] == c
        invariant
            n <= chars@.len(),
            chars@ == s@,
            trimmed_end(s@.take(n as int), c) == trimmed_end(s@, c),
        decreases n,
    {
        assert(s@.take(n as int).drop_last() == s@.take(n - 1));
        n = n - 1;
    }
    s.substring_char(0, n).to_owned()
}

/// The pieces of `s` between occurrences of `c`.
pub fn split(s: &str, c: char) -> (r: Vec<String>)
    ensures
        texts(r@) == pieces(s@, c),
{
    let chars = characters(s);
    let mut out: Vec<String> = Vec::new();
    let mut start: usize = 0;
    let mut i: usize = 0;
    assert(s@.subrange(0, 0) == Seq::<char>::empty());
    assert(texts(out@).push(s@.subrange(0, 0)) == seq![Seq::<char>::empty()]);
    while i < chars.len()
        invariant
            start <= i <= chars@.len(),
            chars@ == s@,
            texts(out@).push(s@.subrange(start as int, i as int)) == pieces(s@.take(i as int), c),
        decreases chars@.len() - i,
    {
        assert(s@.take(i + 1).drop_last() == s@.take(i as int));
        let ghost done = texts(out@);
        let ghost piece = s@.subrange(start as int, i as int);
        if chars[i] == c {
            out.push(s.substring_char(start, i).to_owned());
            start = i + 1;
            assert(texts(out@) == done.push(piece));
            assert(s@.subrange(start as int, i + 1) == Seq::<char>::empty());
        } else {
            assert(done.push(piece).drop_last() == done);
            assert(s@.subrange(start as int, i + 1) == piece.push(s@[i as int]));
        }
        i = i + 1;
    }
    assert(s@.take(i as int) == s@);
    let ghost done = texts(out@);
    out.push(s.substring_char(start, i).to_owned());
    assert(texts(out@) == done.push(s@.subrange(start as int, i as int)));
    out
}

/// Where every character up to `n` differs from `c`, those are what stands before it.
proof fn lemma_before(s: Seq<char>, c: char, n: int)
    requires
        0 <= n <= s.len(),
        forall|i: int| 0 <= i < n ==> s[i] != c,
        n == s.len() || s[n] == c,
    ensures
        before(s, c) == s.take(n),
    decreases n,
{
    if n > 0 {
        lemma_before(s.skip(1), c, n - 1);
        assert(seq![s[0]] + s.skip(1).take(n - 1) == s.take(n));
    } else {
        assert(s.take(0) == Seq::<char>::empty());
    }
}

/// What stands in `s` before the first `c`.
pub fn cut_at(s: &str, c: char) -> (r: String)
    ensures
        r@ == before(s@, c),
{
    let chars = characters(s);
    let mut n: usize = 0;
    while n < chars.len() && chars[n] != c
        invariant
            n <= chars@.len(),
            chars@ == s@,
            forall|i: int| 0 <= i < n ==> s@[i] != c,
        decreases chars@.len() - n,
    {
        n = n + 1;
    }
    proof {
        lemma_before(s@, c, n as int);
    }
    s.substring_char(0, n).to_owned()
}

/// What stands before the first `c` holds no `c`, and is followed by one where anything follows.
pub proof fn law_before_ends_at_the_first(s: Seq<char>, c: char)
    ensures
        !before(s, c).contains(c),
        before(s, c).len() <= s.len(),
        s.take(before(s, c).len() as int) == before(s, c),
        before(s, c).len() == s.len() || s[before(s, c).len() as int] == c,
    decreases s.len(),
{
    if s.len() > 0 && s[0] != c {
        let rest = s.skip(1);
        law_before_ends_at_the_first(rest, c);
        let b = before(rest, c);
        assert(before(s, c) == seq![s[0]] + b);
        assert forall|i: int| 0 <= i < before(s, c).len() implies before(s, c)[i] != c by {
            if i > 0 {
                assert(before(s, c)[i] == b[i - 1]);
                assert(b.contains(b[i - 1]));
            }
        }
        assert(s.take(before(s, c).len() as int) == seq![s[0]] + rest.take(b.len() as int));
        if b.len() < rest.len() {
            assert(s[before(s, c).len() as int] == rest[b.len() as int]);
        }
    } else {
        assert(s.take(0) == Seq::<char>::empty());
    }
}

/// `c` with the letters `A` to `Z` in lower case.
fn lower(c: char) -> (r: char)
    ensures
        r == ascii_lower(c),
{
    if 'A' <= c && c <= 'Z' {
        (c as u8 + 32) as char
    } else {
        c
    }
}

/// Whether two strings agree but for the case of ASCII letters.
pub fn eq_ignore_ascii_case(a: &str, b: &str) -> (r: bool)
    ensures
        r == same_ignoring_case(a@, b@),
{
    let x = characters(a);
    let y = characters(b);
    let ghost low_a = a@.map_values(|c: char| ascii_lower(c));
    let ghost low_b = b@.map_values(|c: char| ascii_lower(c));
    if x.len() != y.len() {
        assert(low_a.len() != low_b.len());
        return false;
    }
    let mut i: usize = 0;
    while i < x.len()
        invariant
            x@ == a@,
            y@ == b@,
            x@.len() == y@.len(),
            i <= x@.len(),
            low_a == a@.map_values(|c: char| ascii_lower(c)),
            low_b == b@.map_values(|c: char| ascii_lower(c)),
            forall|j: int| 0 <= j < i ==> low_a[j] == low_b[j],
        decreases x@.len() - i,
    {
        if lower(x[i]) != lower(y[i]) {
            assert(low_a[i as int] != low_b[i as int]);
            return false;
        }
        i = i + 1;
    }
    assert(low_a =~= low_b);
    true
}

/// The texts of `list`, copied.
pub fn copy_all(list: &Vec<String>) -> (r: Vec<String>)
    ensures
        texts(r@) == texts(list@),
{
    let mut out: Vec<String> = Vec::new();
    let mut i: usize = 0;
    while i < list.len()
        invariant
            i <= list@.len(),
            texts(out@) == texts(list@).take(i as int),
        decreases list@.len() - i,
    {
        let ghost done = texts(out@);
        out.push(list[i].clone());
        assert(texts(out@) == done.push(list@[i as int]@));
        i = i + 1;
    }
    out
}

/// A text begins with the prefixes of which it is a continuation, and with no others.
pub proof fn law_beginnings_are_continued(s: Seq<char>, prefix: Seq<char>)
    ensures
        begins(s, prefix) <==> exists|rest: Seq<char>| s == #[trigger] (prefix + rest),
{
    if begins(s, prefix) {
        assert(s == prefix + s.skip(prefix.len() as int));
    }
    if exists|rest: Seq<char>| s == #[trigger] (prefix + rest) {
        let rest = choose|rest: Seq<char>| s == #[trigger] (prefix + rest);
        assert((prefix + rest).take(prefix.len() as int) == prefix);
    }
}

/// Trimming takes away the characters `c` at the end, all of them and nothing else.
pub proof fn law_trimming_takes_the_run(s: Seq<char>, c: char)
    ensures
        trimmed_end(s, c).len() <= s.len(),
        s.take(trimmed_end(s, c).len() as int) == trimmed_end(s, c),
        forall|i: int| trimmed_end(s, c).len() <= i < s.len() ==> s[i] == c,
        trimmed_end(s, c).len() > 0 ==> trimmed_end(s, c).last() != c,
    decreases s.len(),
{
    if s.len() > 0 && s.last() == c {
        law_trimming_takes_the_run(s.drop_last(), c);
        let n = trimmed_end(s, c).len() as int;
        assert(s.drop_last().take(n) == s.take(n));
        assert forall|i: int| n <= i < s.len() implies s[i] == c by {
            if i < s.len() - 1 {
                assert(s.drop_last()[i] == s[i]);
            }
        }
    } else {
        assert(s.take(s.len() as int) == s);
    }
}

/// The texts of `parts`, one after the other, with `c` between them.
pub open spec fn joined(parts: Seq<Seq<char>>, c: char) -> Seq<char>
    decreases parts.len(),
{
    if parts.len() == 0 {
        Seq::empty()
    } else if parts.len() == 1 {
        parts[0]
    } else {
        joined(parts.drop_last(), c) + seq![c] + parts.last()
    }
}

/// Whether no text of `parts` holds `c`.
pub open spec fn none_holds(parts: Seq<Seq<char>>, c: char) -> bool {
    forall|i: int| 0 <= i < parts.len() ==> !(#[trigger] parts[i]).contains(c)
}

/// A text without `c` is one piece.
proof fn lemma_one_piece(s: Seq<char>, c: char)
    requires
        !s.contains(c),
    ensures
        pieces(s, c) == seq![s],
    decreases s.len(),
{
    if s.len() > 0 {
        let rest = s.drop_last();
        assert forall|i: int| 0 <= i < rest.len() implies rest[i] != c by {
            assert(s.contains(s[i]));
        }
        lemma_one_piece(rest, c);
        assert(s.contains(s.last()));
        assert(rest.push(s.last()) == s);
        assert(pieces(s, c) == seq![s]);
    } else {
        assert(s == Seq::<char>::empty());
    }
}

/// What follows the last `c` is the last piece.
proof fn lemma_last_piece(a: Seq<char>, b: Seq<char>, c: char)
    requires
        !b.contains(c),
    ensures
        pieces(a + seq![c] + b, c) == pieces(a, c).push(b),
    decreases b.len(),
{
    let s = a + seq![c] + b;
    if b.len() == 0 {
        assert(s.drop_last() == a);
        assert(b == Seq::<char>::empty());
    } else {
        let rest = b.drop_last();
        assert forall|i: int| 0 <= i < rest.len() implies rest[i] != c by {
            assert(b.contains(b[i]));
        }
        lemma_last_piece(a, rest, c);
        assert(b.contains(b.last()));
        assert(s.drop_last() == a + seq![c] + rest);
        assert(s.last() == b.last());
        assert(rest.push(b.last()) == b);
        assert(pieces(a, c).push(rest).drop_last() == pieces(a, c));
    }
}

/// Splitting takes back joining, where no text holds what they are joined with.
pub proof fn law_splitting_takes_back_joining(parts: Seq<Seq<char>>, c: char)
    requires
        parts.len() > 0,
        none_holds(parts, c),
    ensures
        pieces(joined(parts, c), c) == parts,
    decreases parts.len(),
{
    if parts.len() == 1 {
        lemma_one_piece(parts[0], c);
        assert(parts == seq![parts[0]]);
    } else {
        let rest = parts.drop_last();
        assert forall|i: int| 0 <= i < rest.len() implies !(#[trigger] rest[i]).contains(c) by {
            assert(rest[i] == parts[i]);
        }
        law_splitting_takes_back_joining(rest, c);
        assert(!parts[parts.len() - 1].contains(c));
        lemma_last_piece(joined(rest, c), parts.last(), c);
        assert(rest.push(parts.last()) == parts);
    }
}

/// Joining takes back splitting, and no piece holds what the text was split at.
pub proof fn law_joining_takes_back_splitting(s: Seq<char>, c: char)
    ensures
        joined(pieces(s, c), c) == s,
        pieces(s, c).len() > 0,
        none_holds(pieces(s, c), c),
    decreases s.len(),
{
    if s.len() == 0 {
        assert(s == Seq::<char>::empty());
    } else {
        let rest = s.drop_last();
        law_joining_takes_back_splitting(rest, c);
        let done = pieces(rest, c);
        let all = pieces(s, c);
        assert(rest.push(s.last()) == s);
        if s.last() == c {
            assert(all.drop_last() == done);
            assert(joined(all, c) == rest + seq![c] + Seq::<char>::empty());
            assert forall|i: int| 0 <= i < all.len() implies !(#[trigger] all[i]).contains(c) by {
                if i < done.len() {
                    assert(all[i] == done[i]);
                }
            }
        } else {
            let last = done.last().push(s.last());
            assert(all.drop_last() == done.drop_last());
            assert(all.last() == last);
            if done.len() == 1 {
                assert(joined(done, c) == done[0]);
                assert(joined(all, c) == all[0]);
            } else {
                assert(joined(all, c) == joined(done.drop_last(), c) + seq![c] + last);
                assert(joined(all, c) =~= s);
            }
            assert forall|i: int| 0 <= i < all.len() implies !(#[trigger] all[i]).contains(c) by {
                if i < done.len() - 1 {
                    assert(all[i] == done[i]);
                } else {
                    assert(!done[done.len() - 1].contains(c));
                    assert forall|k: int| 0 <= k < last.len() implies last[k] != c by {
                        if k < last.len() - 1 {
                            assert(done.last().contains(done.last()[k]));
                        }
                    }
                }
            }
        }
    }
}

/// Whether `x` is an upper case ASCII letter and `y` the same letter in lower case.
pub open spec fn is_case_pair(x: char, y: char) -> bool {
    'A' <= x && x <= 'Z' && y as int == x as int + 32
}

/// Two texts agree but for case where they are equally long and differ at most in the case of ASCII
/// letters, place by place.
pub proof fn law_case_is_all_that_is_ignored(a: Seq<char>, b: Seq<char>)
    ensures
        same_ignoring_case(a, b) <==> a.len() == b.len() && forall|i: int|
            0 <= i < a.len() ==> (#[trigger] a[i] == b[i] || is_case_pair(a[i], b[i])
                || is_case_pair(b[i], a[i])),
{
    let low_a = a.map_values(|c: char| ascii_lower(c));
    let low_b = b.map_values(|c: char| ascii_lower(c));
    if same_ignoring_case(a, b) {
        assert(low_a.len() == low_b.len());
        assert forall|i: int| 0 <= i < a.len() implies (#[trigger] a[i] == b[i] || is_case_pair(
            a[i],
            b[i],
        ) || is_case_pair(b[i], a[i])) by {
            assert(low_a[i] == low_b[i]);
        }
    }
    if a.len() == b.len() && forall|i: int|
        0 <= i < a.len() ==> (#[trigger] a[i] == b[i] || is_case_pair(a[i], b[i]) || is_case_pair(
            b[i],
            a[i],
        )) {
        assert forall|i: int| 0 <= i < a.len() implies low_a[i] == low_b[i] by {
            assert(a[i] == b[i] || is_case_pair(a[i], b[i]) || is_case_pair(b[i], a[i]));
        }
        assert(low_a =~= low_b);
    }
}

/// The texts of a list are those of its strings, one by one.
pub proof fn law_texts_are_those_of_the_strings(list: Seq<String>)
    ensures
        texts(list).len() == list.len(),
        forall|i: int| 0 <= i < list.len() ==> #[trigger] texts(list)[i] == list[i]@,
{
}

} // verus!
