//! Character-level helpers: joining and splitting strings on a separator.

use vstd::prelude::*;

verus! {

/// The characters of each string in `v`.
pub open spec fn strings_view(v: Seq<String>) -> Seq<Seq<char>> {
    v.map_values(|p: String| p@)
}

/// Whether `sep` occurs in `s` starting at position `j`.
pub open spec fn matches_at(s: Seq<char>, sep: Seq<char>, j: int) -> bool {
    0 <= j && j + sep.len() <= s.len() && s.subrange(j, j + sep.len()) == sep
}

/// Position of the first occurrence of `sep` in `s` at or after `from`, or `-1`.
pub open spec fn find_from(s: Seq<char>, sep: Seq<char>, from: int) -> int
    decreases s.len() - from,
{
    if from < 0 || from + sep.len() > s.len() {
        -1
    } else if sep.len() == 0 || s.subrange(from, from + sep.len()) == sep {
        from
    } else {
        find_from(s, sep, from + 1)
    }
}

/// `s` split at every (leftmost, non-overlapping) occurrence of the non-empty `sep`.
pub open spec fn split_nonempty_sep(s: Seq<char>, sep: Seq<char>) -> Seq<Seq<char>>
    decreases s.len(),
{
    let i = find_from(s, sep, 0);
    if sep.len() == 0 || i < 0 {
        seq![s]
    } else {
        proof {
            lemma_find_from_range(s, sep, 0);
        }
        seq![s.take(i)] + split_nonempty_sep(s.skip(i + sep.len()), sep)
    }
}

/// `s` split by `sep` as `str::split` does: an empty separator matches at every
/// character boundary, so the pieces are an empty string, every character, and
/// an empty string.
pub open spec fn spec_split(s: Seq<char>, sep: Seq<char>) -> Seq<Seq<char>> {
    if sep.len() == 0 {
        seq![Seq::<char>::empty()] + Seq::new(s.len(), |i: int| seq![s[i]]) + seq![
            Seq::<char>::empty(),
        ]
    } else {
        split_nonempty_sep(s, sep)
    }
}

/// The pieces of `parts` with `sep` between each two of them.
pub open spec fn spec_join(parts: Seq<Seq<char>>, sep: Seq<char>) -> Seq<char>
    decreases parts.len(),
{
    if parts.len() == 0 {
        Seq::empty()
    } else if parts.len() == 1 {
        parts[0]
    } else {
        spec_join(parts.drop_last(), sep) + sep + parts.last()
    }
}

/// Each piece of `parts` followed by `sep`.
pub open spec fn join_terminated(parts: Seq<Seq<char>>, sep: Seq<char>) -> Seq<char>
    decreases parts.len(),
{
    if parts.len() == 0 {
        Seq::empty()
    } else {
        join_terminated(parts.drop_last(), sep) + parts.last() + sep
    }
}

/// Whether no character of `sep` occurs in `s`.
pub open spec fn avoids_chars(s: Seq<char>, sep: Seq<char>) -> bool {
    forall|i: int| 0 <= i < s.len() ==> !sep.contains(#[trigger] s[i])
}

pub proof fn lemma_find_from_range(s: Seq<char>, sep: Seq<char>, from: int)
    ensures
        find_from(s, sep, from) == -1 || (from <= find_from(s, sep, from) && matches_at(
            s,
            sep,
            find_from(s, sep, from),
        )),
    decreases s.len() - from,
{
    if from < 0 || from + sep.len() > s.len() {
    } else if sep.len() == 0 || s.subrange(from, from + sep.len()) == sep {
        assert(s.subrange(from, from + sep.len()) =~= sep);
    } else {
        lemma_find_from_range(s, sep, from + 1);
    }
}

/// With no occurrence of `sep` in `[from, k)`, the search from `from` ends at
/// `k` when `sep` occurs there, and finds nothing when none occurs later.
pub proof fn lemma_find_from_first(s: Seq<char>, sep: Seq<char>, from: int, k: int)
    requires
        0 <= from <= k,
        forall|j: int| from <= j < k ==> !matches_at(s, sep, j),
    ensures
        matches_at(s, sep, k) ==> find_from(s, sep, from) == k,
        (forall|j: int| k <= j ==> !matches_at(s, sep, j)) ==> find_from(s, sep, from) == -1,
    decreases k - from,
{
    if sep.len() == 0 && from <= s.len() {
        assert(s.subrange(from, from) =~= sep);
    }
    if from < k {
        assert(!matches_at(s, sep, from));
        lemma_find_from_first(s, sep, from + 1, k);
    } else {
        if forall|j: int| k <= j ==> !matches_at(s, sep, j) {
            lemma_find_from_none(s, sep, from);
        }
    }
}

pub proof fn lemma_find_from_none(s: Seq<char>, sep: Seq<char>, from: int)
    requires
        0 <= from,
        forall|j: int| from <= j ==> !matches_at(s, sep, j),
    ensures
        find_from(s, sep, from) == -1,
    decreases s.len() - from,
{
    if from + sep.len() > s.len() {
    } else {
        assert(!matches_at(s, sep, from));
        if sep.len() == 0 {
            assert(s.subrange(from, from) =~= sep);
        }
        lemma_find_from_none(s, sep, from + 1);
    }
}

/// Matches are found the same way in a suffix of `s`.
pub proof fn lemma_matches_at_skip(s: Seq<char>, sep: Seq<char>, start: int, j: int)
    requires
        0 <= start <= s.len(),
    ensures
        matches_at(s.skip(start), sep, j) <==> (0 <= j && matches_at(s, sep, j + start)),
{
    if 0 <= j && j + sep.len() <= s.len() - start {
        assert(s.skip(start).subrange(j, j + sep.len()) =~= s.subrange(
            j + start,
            j + start + sep.len(),
        ));
    }
}

/// A trailing separator after each piece is the joined pieces followed by one separator.
pub proof fn lemma_join_terminated(parts: Seq<Seq<char>>, sep: Seq<char>)
    requires
        parts.len() >= 1,
    ensures
        join_terminated(parts, sep) == spec_join(parts, sep) + sep,
    decreases parts.len(),
{
    if parts.len() == 1 {
        assert(parts.drop_last() =~= Seq::<Seq<char>>::empty());
        assert(join_terminated(parts.drop_last(), sep) == Seq::<char>::empty());
        assert(join_terminated(parts, sep) =~= parts[0] + sep);
    } else {
        lemma_join_terminated(parts.drop_last(), sep);
        assert(join_terminated(parts, sep) =~= spec_join(parts, sep) + sep);
    }
}

/// Joining a first piece in front of at least one more.
pub proof fn lemma_join_cons(a: Seq<char>, rest: Seq<Seq<char>>, sep: Seq<char>)
    requires
        rest.len() >= 1,
    ensures
        spec_join(seq![a] + rest, sep) == a + sep + spec_join(rest, sep),
    decreases rest.len(),
{
    let all = seq![a] + rest;
    if rest.len() == 1 {
        assert(all.drop_last() =~= seq![a]);
        assert(spec_join(all.drop_last(), sep) == a);
        assert(all.last() == rest[0]);
        assert(spec_join(all, sep) =~= a + sep + spec_join(rest, sep));
    } else {
        lemma_join_cons(a, rest.drop_last(), sep);
        assert(all.drop_last() =~= seq![a] + rest.drop_last());
        assert(spec_join(all, sep) =~= a + sep + spec_join(rest, sep));
    }
}

/// Joining, without a separator, an empty piece and then the single characters of `s`.
proof fn lemma_join_singles(s: Seq<char>)
    ensures
        spec_join(
            seq![Seq::<char>::empty()] + Seq::new(s.len(), |i: int| seq![s[i]]),
            Seq::<char>::empty(),
        ) == s,
    decreases s.len(),
{
    let parts = seq![Seq::<char>::empty()] + Seq::new(s.len(), |i: int| seq![s[i]]);
    if s.len() == 0 {
        assert(parts =~= seq![Seq::<char>::empty()]);
    } else {
        let t = s.drop_last();
        lemma_join_singles(t);
        assert(parts.drop_last() =~= seq![Seq::<char>::empty()] + Seq::new(
            t.len(),
            |i: int| seq![t[i]],
        ));
        assert(spec_join(parts, Seq::<char>::empty()) =~= s);
    }
}

/// The join of at least one piece is empty only for a single empty piece,
/// when the separator is not empty.
pub proof fn lemma_join_empty(parts: Seq<Seq<char>>, sep: Seq<char>)
    requires
        parts.len() >= 1,
        sep.len() >= 1,
        spec_join(parts, sep).len() == 0,
    ensures
        parts.len() == 1,
        parts[0].len() == 0,
{
    if parts.len() > 1 {
        assert((spec_join(parts.drop_last(), sep) + sep + parts.last()).len() >= sep.len());
    }
}

/// Splitting always gives at least one piece.
pub proof fn lemma_split_nonempty_sep_len(s: Seq<char>, sep: Seq<char>)
    ensures
        split_nonempty_sep(s, sep).len() >= 1,
    decreases s.len(),
{
    let i = find_from(s, sep, 0);
    if sep.len() != 0 && i >= 0 {
        lemma_find_from_range(s, sep, 0);
        lemma_split_nonempty_sep_len(s.skip(i + sep.len()), sep);
    }
}

/// Joining the pieces of a split gives back the string, for every separator.
pub proof fn lemma_join_split(s: Seq<char>, sep: Seq<char>)
    ensures
        spec_join(spec_split(s, sep), sep) == s,
    decreases s.len(),
{
    if sep.len() == 0 {
        let e = Seq::<char>::empty();
        let front = seq![e] + Seq::new(s.len(), |i: int| seq![s[i]]);
        lemma_join_singles(s);
        assert(spec_split(s, sep) =~= front + seq![e]);
        assert((front + seq![e]).drop_last() =~= front);
        assert((front + seq![e]).last() == e);
        assert(spec_join(front + seq![e], sep) == spec_join(front, sep) + sep + e);
        assert(spec_join(front, Seq::<char>::empty()) == s);
        assert(sep =~= e);
        assert(spec_join(front + seq![e], sep) =~= s);
    } else {
        let i = find_from(s, sep, 0);
        if i >= 0 {
            lemma_find_from_range(s, sep, 0);
            let rest = s.skip(i + sep.len());
            lemma_join_split(rest, sep);
            lemma_split_nonempty_sep_len(rest, sep);
            lemma_join_cons(s.take(i), split_nonempty_sep(rest, sep), sep);
            assert(s.take(i) + sep + rest =~= s);
        }
    }
}

/// A piece holding no character of `sep` has no occurrence of it.
pub proof fn lemma_find_in_piece(a: Seq<char>, sep: Seq<char>)
    requires
        sep.len() >= 1,
        avoids_chars(a, sep),
    ensures
        find_from(a, sep, 0) == -1,
{
    assert forall|j: int| 0 <= j implies !matches_at(a, sep, j) by {
        if matches_at(a, sep, j) {
            assert(a.subrange(j, j + sep.len())[0] == a[j]);
            assert(sep.contains(sep[0]));
        }
    }
    lemma_find_from_none(a, sep, 0);
}

/// A string holding no character of a non-empty separator splits into itself.
pub proof fn lemma_split_no_separator(s: Seq<char>, sep: Seq<char>)
    requires
        sep.len() >= 1,
        avoids_chars(s, sep),
    ensures
        spec_split(s, sep) == seq![s],
{
    lemma_find_in_piece(s, sep);
}

/// Splitting two pieces that hold no character of a non-empty separator,
/// joined by it, gives the two pieces.
pub proof fn lemma_split_two(a: Seq<char>, b: Seq<char>, sep: Seq<char>)
    requires
        sep.len() >= 1,
        avoids_chars(a, sep),
        avoids_chars(b, sep),
    ensures
        spec_split(a + sep + b, sep) == seq![a, b],
{
    let s = a + sep + b;
    assert forall|j: int| 0 <= j < a.len() implies !matches_at(s, sep, j) by {
        if matches_at(s, sep, j) {
            assert(s.subrange(j, j + sep.len())[0] == s[j]);
            assert(s[j] == a[j]);
            assert(sep.contains(sep[0]));
        }
    }
    assert(s.subrange(a.len() as int, (a.len() + sep.len()) as int) =~= sep);
    lemma_find_from_first(s, sep, 0, a.len() as int);
    assert(s.take(a.len() as int) =~= a);
    assert(s.skip((a.len() + sep.len()) as int) =~= b);
    lemma_find_in_piece(b, sep);
    assert(find_from(s, sep, 0) == a.len());
    assert(split_nonempty_sep(b, sep) == seq![b]);
    assert(spec_split(s, sep) == seq![s.take(a.len() as int)] + split_nonempty_sep(
        s.skip((a.len() + sep.len()) as int),
        sep,
    ));
    assert(spec_split(s, sep) =~= seq![a, b]);
}

/// Whether splitting on the non-empty `sep` finds the pieces back in their
/// join: in each piece followed by the separator and the rest of the join, the
/// first occurrence of `sep` is the one right after the piece, and the last
/// piece holds no occurrence.
pub open spec fn splits_back(parts: Seq<Seq<char>>, sep: Seq<char>) -> bool
    decreases parts.len(),
{
    if parts.len() <= 1 {
        parts.len() == 1 ==> find_from(parts[0], sep, 0) == -1
    } else {
        &&& find_from(parts[0] + sep + spec_join(parts.skip(1), sep), sep, 0) == parts[0].len()
        &&& splits_back(parts.skip(1), sep)
    }
}

/// For a non-empty separator, splitting the join of at least one piece gives
/// back the pieces exactly when they split back.
pub proof fn lemma_split_join_exact(parts: Seq<Seq<char>>, sep: Seq<char>)
    requires
        parts.len() >= 1,
        sep.len() >= 1,
    ensures
        spec_split(spec_join(parts, sep), sep) == parts <==> splits_back(parts, sep),
    decreases parts.len(),
{
    let a = parts[0];
    if parts.len() == 1 {
        let s = spec_join(parts, sep);
        assert(s == a);
        let i = find_from(s, sep, 0);
        lemma_find_from_range(s, sep, 0);
        if i >= 0 {
            lemma_find_from_range(s, sep, 0);
            lemma_split_nonempty_sep_len(s.skip(i + sep.len()), sep);
            assert(spec_split(s, sep).len() >= 2);
            assert(spec_split(s, sep) != parts);
            assert(!splits_back(parts, sep));
        } else {
            assert(spec_split(s, sep) =~= parts);
            assert(splits_back(parts, sep));
        }
    } else {
        let rest = parts.skip(1);
        assert(parts =~= seq![a] + rest);
        lemma_join_cons(a, rest, sep);
        let joined_rest = spec_join(rest, sep);
        let s = a + sep + joined_rest;
        assert(spec_join(parts, sep) == s);
        lemma_split_join_exact(rest, sep);
        let i = find_from(s, sep, 0);
        assert(splits_back(parts, sep) == (i == a.len() && splits_back(rest, sep)));
        if i < 0 {
            assert(spec_split(s, sep) =~= seq![s]);
            assert(spec_split(s, sep).len() == 1);
        } else {
            lemma_find_from_range(s, sep, 0);
            let tail = s.skip(i + sep.len());
            assert(spec_split(s, sep) == seq![s.take(i)] + spec_split(tail, sep));
            if i == a.len() {
                assert(s.take(i) =~= a);
                assert(tail =~= joined_rest);
                if spec_split(s, sep) == parts {
                    assert(spec_split(tail, sep) =~= (seq![s.take(i)] + spec_split(tail, sep)).skip(1));
                    assert(spec_split(tail, sep) == rest);
                }
                if splits_back(parts, sep) {
                    assert(spec_split(s, sep) =~= parts);
                }
            } else {
                if spec_split(s, sep) == parts {
                    assert(spec_split(s, sep)[0] == s.take(i));
                    assert(s.take(i).len() == i);
                }
            }
        }
    }
}

/// Whether `parts` is what an empty separator splits a non-empty string into:
/// an empty piece, the characters one by one, and an empty piece.
pub open spec fn empty_separator_pieces(parts: Seq<Seq<char>>) -> bool {
    &&& parts.len() >= 3
    &&& parts[0].len() == 0
    &&& parts.last().len() == 0
    &&& forall|i: int| 0 < i < parts.len() - 1 ==> (#[trigger] parts[i]).len() == 1
}

/// With an empty separator, the join of the pieces is non-empty and splits
/// back into them exactly when they are an empty piece, single characters
/// and an empty piece.
pub proof fn lemma_split_join_empty_separator(parts: Seq<Seq<char>>)
    ensures
        (spec_join(parts, Seq::<char>::empty()).len() > 0 && spec_split(
            spec_join(parts, Seq::<char>::empty()),
            Seq::<char>::empty(),
        ) == parts) <==> empty_separator_pieces(parts),
{
    let e = Seq::<char>::empty();
    let s = spec_join(parts, e);
    if empty_separator_pieces(parts) {
        let k = parts.len() - 2;
        let t = Seq::new(k as nat, |i: int| parts[i + 1][0]);
        let singles = Seq::new(t.len(), |i: int| seq![t[i]]);
        let front = seq![e] + singles;
        assert forall|j: int| 1 <= j <= k implies #[trigger] parts[j] =~= seq![t[j - 1]] by {
            assert(parts[j].len() == 1);
        }
        assert forall|j: int| 0 <= j < parts.len() implies #[trigger] parts[j] == (front + seq![e])[j] by {
            if 1 <= j <= k {
                assert(front[j] == singles[j - 1]);
            }
        }
        assert(parts =~= front + seq![e]);
        lemma_join_singles(t);
        assert((front + seq![e]).drop_last() =~= front);
        assert(spec_join(front + seq![e], e) == spec_join(front, e) + e + e);
        assert(s =~= t);
        assert(spec_split(s, e) =~= parts);
    }
    if s.len() > 0 && spec_split(s, e) == parts {
        let split = spec_split(s, e);
        assert(split.len() == s.len() + 2);
        assert forall|i: int| 0 < i < parts.len() - 1 implies (#[trigger] parts[i]).len() == 1 by {
            assert(split[i] == seq![s[i - 1]]);
        }
        assert(split[0] == e);
        assert(split.last() == e);
    }
}

/// Appends one character to a string (`String::push`).
#[verifier::external_body]
pub(crate) fn push_char(s: &mut String, c: char)
    ensures
        final(s)@ == old(s)@.push(c),
{
    s.push(c);
}

/// The characters of `s`, in order.
pub fn chars_of(s: &str) -> (v: Vec<char>)
    ensures
        v@ == s@,
{
    let mut v: Vec<char> = Vec::new();
    for c in it: s.chars()
        invariant
            v@ == it.seq().take(it.index()),
            it.seq() == s@,
    {
        v.push(c);
    }
    v
}

/// The string made of `chars[from..to]`.
pub fn string_of_range(chars: &Vec<char>, from: usize, to: usize) -> (s: String)
    requires
        from <= to <= chars.len(),
    ensures
        s@ == chars@.subrange(from as int, to as int),
{
    let mut s = String::new();
    let mut i = from;
    while i < to
        invariant
            from <= i <= to <= chars.len(),
            s@ == chars@.subrange(from as int, i as int),
        decreases to - i,
    {
        push_char(&mut s, chars[i]);
        i = i + 1;
        assert(s@ =~= chars@.subrange(from as int, i as int));
    }
    s
}

/// The pieces joined with `sep` between each two of them.
pub fn join_with(values: &Vec<String>, sep: &str) -> (s: String)
    ensures
        s@ == spec_join(strings_view(values@), sep@),
{
    let ghost parts = strings_view(values@);
    let mut acc = String::new();
    let n = values.len();
    for i in 0..n
        invariant
            n == values@.len(),
            parts == strings_view(values@),
            acc@ == join_terminated(parts.take(i as int), sep@),
    {
        let ghost before = acc@;
        acc.append(values[i].as_str());
        acc.append(sep);
        proof {
            assert(parts.take(i + 1).drop_last() =~= parts.take(i as int));
            assert(acc@ =~= join_terminated(parts.take(i + 1), sep@));
        }
    }
    assert(parts.take(n as int) =~= parts);
    if !acc.as_str().is_empty() {
        proof {
            if parts.len() == 0 {
                assert(false);
            }
            lemma_join_terminated(parts, sep@);
        }
        let len = acc.as_str().unicode_len();
        let sep_len = sep.unicode_len();
        let trimmed = acc.as_str().substring_char(0, len - sep_len);
        assert(trimmed@ =~= spec_join(parts, sep@));
        String::from_str(trimmed)
    } else {
        proof {
            if parts.len() >= 1 {
                lemma_join_terminated(parts, sep@);
                assert(spec_join(parts, sep@) =~= Seq::<char>::empty());
            }
        }
        acc
    }
}

/// Whether `sep` occurs in `chars` at position `i`.
fn matches_at_exec(chars: &Vec<char>, sep: &Vec<char>, i: usize) -> (b: bool)
    ensures
        b == matches_at(chars@, sep@, i as int),
{
    if sep.len() > chars.len() || i > chars.len() - sep.len() {
        return false;
    }
    let mut k: usize = 0;
    while k < sep.len()
        invariant
            i + sep.len() <= chars.len(),
            k <= sep.len(),
            forall|t: int| 0 <= t < k ==> chars@[i + t] == sep@[t],
        decreases sep.len() - k,
    {
        if chars[i + k] != sep[k] {
            assert(chars@.subrange(i as int, i + sep.len())[k as int] != sep@[k as int]);
            return false;
        }
        k = k + 1;
    }
    assert(chars@.subrange(i as int, i + sep.len()) =~= sep@);
    true
}

/// `s` split by `sep`, as `str::split` splits it.
pub fn split_by(s: &str, sep: &str) -> (parts: Vec<String>)
    ensures
        strings_view(parts@) == spec_split(s@, sep@),
{
    let chars = chars_of(s);
    let sepv = chars_of(sep);
    let n = chars.len();
    let m = sepv.len();
    let mut parts: Vec<String> = Vec::new();
    if m == 0 {
        parts.push(String::new());
        let mut i: usize = 0;
        while i < n
            invariant
                i <= n == chars@.len(),
                chars@ == s@,
                strings_view(parts@) =~= seq![Seq::<char>::empty()] + Seq::new(
                    i as nat,
                    |j: int| seq![s@[j]],
                ),
            decreases n - i,
        {
            let p = string_of_range(&chars, i, i + 1);
            assert(p@ =~= seq![s@[i as int]]);
            let ghost old_parts = strings_view(parts@);
            parts.push(p);
            assert(strings_view(parts@) =~= old_parts + seq![p@]);
            i = i + 1;
        }
        parts.push(String::new());
        assert(strings_view(parts@) =~= spec_split(s@, sep@));
        return parts;
    }
    let mut start: usize = 0;
    let mut i: usize = 0;
    assert(s@.skip(0) =~= s@);
    assert(strings_view(parts@) =~= Seq::<Seq<char>>::empty());
    while m <= n && i <= n - m
        invariant
            0 < m == sepv@.len(),
            sepv@ == sep@,
            n == chars@.len(),
            chars@ == s@,
            start <= i <= n,
            forall|j: int| start <= j < i ==> !matches_at(s@, sep@, j),
            strings_view(parts@) + split_nonempty_sep(s@.skip(start as int), sep@)
                == split_nonempty_sep(s@, sep@),
        decreases n - i,
    {
        if matches_at_exec(&chars, &sepv, i) {
            let ghost rest = s@.skip(start as int);
            proof {
                assert forall|j: int| 0 <= j < i - start implies !matches_at(rest, sep@, j) by {
                    lemma_matches_at_skip(s@, sep@, start as int, j);
                }
                lemma_matches_at_skip(s@, sep@, start as int, i - start);
                lemma_find_from_first(rest, sep@, 0, i - start);
                assert(rest.take(i - start) =~= s@.subrange(start as int, i as int));
                assert(rest.skip(i - start + m) =~= s@.skip(i + m));
            }
            let p = string_of_range(&chars, start, i);
            let ghost old_parts = strings_view(parts@);
            parts.push(p);
            assert(strings_view(parts@) =~= old_parts + seq![p@]);
            i = i + m;
            start = i;
        } else {
            i = i + 1;
        }
    }
    proof {
        let rest = s@.skip(start as int);
        assert forall|j: int| 0 <= j implies !matches_at(rest, sep@, j) by {
            lemma_matches_at_skip(s@, sep@, start as int, j);
        }
        lemma_find_from_none(rest, sep@, 0);
        assert(rest =~= s@.subrange(start as int, n as int));
    }
    let p = string_of_range(&chars, start, n);
    let ghost old_parts = strings_view(parts@);
    parts.push(p);
    assert(strings_view(parts@) =~= old_parts + seq![p@]);
    parts
}

} // verus!
