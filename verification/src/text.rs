//! Text utilities shared by the parser, the route table and the response
//! builder: locating a needle inside a string, splitting on a separator, and
//! printing an integer in decimal. Each executable function is proved against
//! a recursive specification over sequences of characters.
use vstd::prelude::*;

verus! {

/// `p` is a prefix of `s`.
pub open spec fn has_prefix(s: Seq<char>, p: Seq<char>) -> bool {
    p.len() <= s.len() && s.subrange(0, p.len() as int) == p
}

/// The index of the first occurrence of `needle` inside `s`, if any.
pub open spec fn find_sub(s: Seq<char>, needle: Seq<char>) -> Option<int>
    decreases s.len(),
{
    if has_prefix(s, needle) {
        Some(0int)
    } else if s.len() == 0 {
        None::<int>
    } else {
        match find_sub(s.drop_first(), needle) {
            Some(i) => Some(i + 1),
            None => None::<int>,
        }
    }
}

/// The pieces of `s` between occurrences of `needle`, in order: what
/// splitting on a separator yields. The result always has at least one
/// element, and an empty `s` yields one empty piece.
pub open spec fn split_on(s: Seq<char>, needle: Seq<char>) -> Seq<Seq<char>>
    decreases s.len(),
{
    if needle.len() == 0 {
        seq![s]
    } else if has_prefix(s, needle) {
        seq![Seq::<char>::empty()] + split_on(s.skip(needle.len() as int), needle)
    } else if s.len() == 0 {
        seq![s]
    } else {
        let rest = split_on(s.drop_first(), needle);
        seq![seq![s[0]] + rest[0]] + rest.drop_first()
    }
}

/// Splitting yields at least one piece.
pub proof fn lemma_split_on_len(s: Seq<char>, needle: Seq<char>)
    ensures
        split_on(s, needle).len() >= 1,
    decreases s.len(),
{
    if needle.len() == 0 {
    } else if has_prefix(s, needle) {
        lemma_split_on_len(s.skip(needle.len() as int), needle);
    } else if s.len() == 0 {
    } else {
        lemma_split_on_len(s.drop_first(), needle);
    }
}

/// Splitting steps over the first occurrence of the separator: the first
/// piece is everything before it, and the remaining pieces are the split of
/// everything after it. Where the separator does not occur, the whole string
/// is the one piece.
pub proof fn lemma_split_on_step(s: Seq<char>, needle: Seq<char>)
    requires
        needle.len() > 0,
    ensures
        match find_sub(s, needle) {
            Some(i) => split_on(s, needle) == seq![s.subrange(0, i)] + split_on(
                s.skip(i + needle.len()),
                needle,
            ),
            None => split_on(s, needle) == seq![s],
        },
    decreases s.len(),
{
    lemma_find_sub_sound(s, needle);
    assert(s.skip(0) =~= s);
    if has_prefix(s, needle) {
        assert(find_sub(s, needle) == Some(0int));
        assert(s.subrange(0, 0) =~= Seq::<char>::empty());
    } else if s.len() == 0 {
    } else {
        let t = s.drop_first();
        assert(t =~= s.skip(1));
        lemma_split_on_step(t, needle);
        let rest = split_on(t, needle);
        match find_sub(t, needle) {
            Some(j) => {
                let i = j + 1;
                assert(find_sub(s, needle) == Some(i));
                lemma_find_sub_sound(t, needle);
                assert(rest == seq![t.subrange(0, j)] + split_on(t.skip(j + needle.len()), needle));
                assert(rest[0] == t.subrange(0, j));
                assert(seq![s[0]] + t.subrange(0, j) =~= s.subrange(0, i));
                assert(rest.drop_first() =~= split_on(t.skip(j + needle.len()), needle));
                assert(t.skip(j + needle.len()) =~= s.skip(i + needle.len()));
                assert(split_on(s, needle) == seq![seq![s[0]] + rest[0]] + rest.drop_first());
                assert(seq![seq![s[0]] + rest[0]] =~= seq![s.subrange(0, i)]);
            },
            None => {
                assert(find_sub(s, needle) == None::<int>);
                assert(rest == seq![t]);
                assert(rest[0] == t);
                assert(seq![s[0]] + t =~= s);
                assert(rest.drop_first() =~= Seq::<Seq<char>>::empty());
                assert(split_on(s, needle) == seq![seq![s[0]] + rest[0]] + rest.drop_first());
                assert(seq![seq![s[0]] + rest[0]] + rest.drop_first() =~= seq![s]);
            },
        }
    }
}

proof fn lemma_skip_drop_first(s: Seq<char>, k: int)
    requires
        0 <= k < s.len(),
    ensures
        s.skip(k).drop_first() =~= s.skip(k + 1),
{
}

/// If `needle` occurs nowhere before `i` and occurs at `i`, then `i` is the
/// first occurrence.
pub proof fn lemma_find_sub_at(s: Seq<char>, needle: Seq<char>, i: int)
    requires
        0 <= i <= s.len(),
        forall|k: int| 0 <= k < i ==> !has_prefix(#[trigger] s.skip(k), needle),
        has_prefix(s.skip(i), needle),
    ensures
        find_sub(s, needle) == Some(i),
    decreases i,
{
    if i == 0 {
        assert(s.skip(0) =~= s);
    } else {
        assert(s.skip(0) =~= s);
        assert(!has_prefix(s, needle));
        assert(s.len() > 0) by {
            assert(!has_prefix(s.skip(0), needle));
        }
        let t = s.drop_first();
        assert(t =~= s.skip(1));
        assert forall|k: int| 0 <= k < i - 1 implies !has_prefix(#[trigger] t.skip(k), needle) by {
            lemma_skip_drop_first(s, k + 1);
            assert(t.skip(k) =~= s.skip(1).skip(k));
            assert(s.skip(1).skip(k) =~= s.skip(k + 1));
        }
        assert(t.skip(i - 1) =~= s.skip(i));
        lemma_find_sub_at(t, needle, i - 1);
    }
}

/// If `needle` occurs nowhere in `s`, the search finds nothing.
pub proof fn lemma_find_sub_none(s: Seq<char>, needle: Seq<char>)
    requires
        forall|k: int| 0 <= k <= s.len() ==> !has_prefix(#[trigger] s.skip(k), needle),
    ensures
        find_sub(s, needle) == None::<int>,
    decreases s.len(),
{
    assert(s.skip(0) =~= s);
    assert(!has_prefix(s, needle));
    if s.len() > 0 {
        let t = s.drop_first();
        assert(t =~= s.skip(1));
        assert forall|k: int| 0 <= k <= t.len() implies !has_prefix(#[trigger] t.skip(k), needle) by {
            assert(t.skip(k) =~= s.skip(k + 1));
        }
        lemma_find_sub_none(t, needle);
    }
}

/// Wherever the search reports an occurrence, the needle indeed stands there,
/// and nowhere earlier.
pub proof fn lemma_find_sub_sound(s: Seq<char>, needle: Seq<char>)
    ensures
        match find_sub(s, needle) {
            Some(i) => 0 <= i && i + needle.len() <= s.len() && has_prefix(s.skip(i), needle)
                && forall|k: int| 0 <= k < i ==> !has_prefix(#[trigger] s.skip(k), needle),
            None => forall|k: int| 0 <= k <= s.len() ==> !has_prefix(#[trigger] s.skip(k), needle),
        },
    decreases s.len(),
{
    assert(s.skip(0) =~= s);
    if has_prefix(s, needle) {
    } else if s.len() == 0 {
        assert forall|k: int| 0 <= k <= s.len() implies !has_prefix(#[trigger] s.skip(k), needle) by {
            assert(s.skip(k) =~= s);
        }
    } else {
        let t = s.drop_first();
        assert(t =~= s.skip(1));
        lemma_find_sub_sound(t, needle);
        assert forall|k: int| 0 <= k <= t.len() implies t.skip(k) =~= s.skip(k + 1) by {
            assert(t.skip(k) =~= s.skip(1).skip(k));
            assert(s.skip(1).skip(k) =~= s.skip(k + 1));
        }
        match find_sub(t, needle) {
            Some(i) => {
                assert(has_prefix(s.skip(i + 1), needle));
                assert forall|k: int| 0 <= k < i + 1 implies !has_prefix(
                    #[trigger] s.skip(k),
                    needle,
                ) by {
                    if k > 0 {
                        assert(t.skip(k - 1) =~= s.skip(k));
                    }
                }
            },
            None => {
                assert forall|k: int| 0 <= k <= s.len() implies !has_prefix(
                    #[trigger] s.skip(k),
                    needle,
                ) by {
                    if k > 0 {
                        assert(t.skip(k - 1) =~= s.skip(k));
                    }
                }
            },
        }
    }
}

/// No occurrence of `c` anywhere in `s`.
pub open spec fn no_char(s: Seq<char>, c: char) -> bool {
    forall|k: int| 0 <= k < s.len() ==> s[k] != c
}

/// The pieces joined back together with the separator between them.
pub open spec fn join_with(pieces: Seq<Seq<char>>, sep: char) -> Seq<char>
    decreases pieces.len(),
{
    if pieces.len() == 0 {
        Seq::<char>::empty()
    } else if pieces.len() == 1 {
        pieces[0]
    } else {
        pieces[0] + seq![sep] + join_with(pieces.drop_first(), sep)
    }
}

/// A one-character needle stands at position `k` exactly where that character
/// does.
pub proof fn lemma_prefix_char(s: Seq<char>, c: char, k: int)
    requires
        0 <= k <= s.len(),
    ensures
        has_prefix(s.skip(k), seq![c]) <==> (k < s.len() && s[k] == c),
{
    if k < s.len() {
        if s[k] == c {
            assert(s.skip(k).subrange(0, 1) =~= seq![c]);
        }
        if has_prefix(s.skip(k), seq![c]) {
            assert(s.skip(k).subrange(0, 1)[0] == s[k]);
        }
    }
}

/// Every piece of a split on a one-character separator is free of that
/// separator.
pub proof fn lemma_split_pieces_no_char(s: Seq<char>, c: char)
    ensures
        forall|k: int|
            0 <= k < split_on(s, seq![c]).len() ==> no_char(#[trigger] split_on(s, seq![c])[k], c),
    decreases s.len(),
{
    let needle = seq![c];
    let pieces = split_on(s, needle);
    if has_prefix(s, needle) {
        let rest = split_on(s.skip(1), needle);
        lemma_split_pieces_no_char(s.skip(1), c);
        assert(pieces == seq![Seq::<char>::empty()] + rest);
        assert forall|k: int| 0 <= k < pieces.len() implies no_char(#[trigger] pieces[k], c) by {
            if k > 0 {
                assert(pieces[k] == rest[k - 1]);
            }
        }
    } else if s.len() == 0 {
    } else {
        lemma_prefix_char(s, c, 0);
        assert(s.skip(0) =~= s);
        assert(s[0] != c);
        let rest = split_on(s.drop_first(), needle);
        lemma_split_pieces_no_char(s.drop_first(), c);
        lemma_split_on_len(s.drop_first(), needle);
        assert(pieces == seq![seq![s[0]] + rest[0]] + rest.drop_first());
        assert forall|k: int| 0 <= k < pieces.len() implies no_char(#[trigger] pieces[k], c) by {
            if k == 0 {
                assert(pieces[0] == seq![s[0]] + rest[0]);
                assert forall|j: int| 0 <= j < pieces[0].len() implies pieces[0][j] != c by {
                    if j > 0 {
                        assert(pieces[0][j] == rest[0][j - 1]);
                    }
                }
            } else {
                assert(pieces[k] == rest[k]);
            }
        }
    }
}

/// Splitting the join of separator-free pieces recovers the pieces.
pub proof fn lemma_split_join(pieces: Seq<Seq<char>>, c: char)
    requires
        pieces.len() >= 1,
        forall|k: int| 0 <= k < pieces.len() ==> no_char(#[trigger] pieces[k], c),
    ensures
        split_on(join_with(pieces, c), seq![c]) == pieces,
    decreases pieces.len(),
{
    let needle = seq![c];
    let s = join_with(pieces, c);
    if pieces.len() == 1 {
        assert(s == pieces[0]);
        assert forall|k: int| 0 <= k <= s.len() implies !has_prefix(
            #[trigger] s.skip(k),
            needle,
        ) by {
            lemma_prefix_char(s, c, k);
        }
        lemma_find_sub_none(s, needle);
        lemma_split_on_step(s, needle);
        assert(split_on(s, needle) =~= pieces);
    } else {
        let head = pieces[0];
        let tail = join_with(pieces.drop_first(), c);
        assert(s == head + seq![c] + tail);
        let i = head.len() as int;
        assert forall|k: int| 0 <= k < i implies !has_prefix(#[trigger] s.skip(k), needle) by {
            assert(s[k] == head[k]);
            lemma_prefix_char(s, c, k);
        }
        assert(s[i] == c);
        lemma_prefix_char(s, c, i);
        lemma_find_sub_at(s, needle, i);
        lemma_split_on_step(s, needle);
        assert(split_on(s, needle) == seq![s.subrange(0, i)] + split_on(s.skip(i + 1), needle));
        assert(s.subrange(0, i) =~= head);
        assert(s.skip(i + 1) =~= tail);
        assert forall|k: int| 0 <= k < pieces.drop_first().len() implies no_char(
            #[trigger] pieces.drop_first()[k],
            c,
        ) by {
            assert(pieces.drop_first()[k] == pieces[k + 1]);
        }
        lemma_split_join(pieces.drop_first(), c);
        assert(seq![head] + pieces.drop_first() =~= pieces);
    }
}

/// The character for one decimal digit.
pub open spec fn digit_char(d: int) -> char {
    if d == 0 {
        '0'
    } else if d == 1 {
        '1'
    } else if d == 2 {
        '2'
    } else if d == 3 {
        '3'
    } else if d == 4 {
        '4'
    } else if d == 5 {
        '5'
    } else if d == 6 {
        '6'
    } else if d == 7 {
        '7'
    } else if d == 8 {
        '8'
    } else {
        '9'
    }
}

/// The decimal digits of `n`, most significant first, without leading zeros
/// (a single `'0'` for zero).
pub open spec fn dec_digits(n: nat) -> Seq<char>
    decreases n,
{
    if n < 10 {
        seq![digit_char(n as int)]
    } else {
        dec_digits(n / 10) + seq![digit_char((n % 10) as int)]
    }
}

/// The text for one decimal digit.
fn digit_str(d: usize) -> (r: &'static str)
    requires
        d < 10,
    ensures
        r@ == seq![digit_char(d as int)],
{
    proof {
        reveal_strlit("0");
        reveal_strlit("1");
        reveal_strlit("2");
        reveal_strlit("3");
        reveal_strlit("4");
        reveal_strlit("5");
        reveal_strlit("6");
        reveal_strlit("7");
        reveal_strlit("8");
        reveal_strlit("9");
    }
    let r = if d == 0 {
        "0"
    } else if d == 1 {
        "1"
    } else if d == 2 {
        "2"
    } else if d == 3 {
        "3"
    } else if d == 4 {
        "4"
    } else if d == 5 {
        "5"
    } else if d == 6 {
        "6"
    } else if d == 7 {
        "7"
    } else if d == 8 {
        "8"
    } else {
        "9"
    };
    proof {
        assert(r@ =~= seq![digit_char(d as int)]);
    }
    r
}

/// The decimal text of `n`.
pub fn usize_to_string(n: usize) -> (r: String)
    ensures
        r@ == dec_digits(n as nat),
    decreases n,
{
    if n < 10 {
        digit_str(n).to_owned()
    } else {
        let prefix = usize_to_string(n / 10);
        let r = prefix.concat(digit_str(n % 10));
        r
    }
}

/// Whether `p` is a prefix of `s`.
pub fn starts_with(s: &str, p: &str) -> (r: bool)
    ensures
        r == has_prefix(s@, p@),
{
    let n = s.unicode_len();
    let m = p.unicode_len();
    if m > n {
        return false;
    }
    let mut j: usize = 0;
    while j < m
        invariant
            0 <= j <= m,
            m <= n,
            n == s@.len(),
            m == p@.len(),
            forall|k: int| 0 <= k < j ==> s@[k] == p@[k],
        decreases m - j,
    {
        if s.get_char(j) != p.get_char(j) {
            assert(!has_prefix(s@, p@)) by {
                if has_prefix(s@, p@) {
                    assert(s@.subrange(0, p@.len() as int)[j as int] == p@[j as int]);
                }
            }
            return false;
        }
        j += 1;
    }
    assert(s@.subrange(0, p@.len() as int) =~= p@);
    true
}

/// The index of the first occurrence of `needle` inside `s`, if any.
pub fn find(s: &str, needle: &str) -> (r: Option<usize>)
    ensures
        match r {
            Some(u) => find_sub(s@, needle@) == Some(u as int) && u + needle@.len() <= s@.len(),
            None => find_sub(s@, needle@) == None::<int>,
        },
{
    let n = s.unicode_len();
    let m = needle.unicode_len();
    if m == 0 {
        proof {
            assert(has_prefix(s@.skip(0), needle@)) by {
                assert(s@.skip(0).subrange(0, 0) =~= needle@);
            }
            lemma_find_sub_at(s@, needle@, 0);
        }
        return Some(0);
    }
    let mut i: usize = 0;
    while m <= n && i <= n - m
        invariant
            m >= 1,
            0 <= i,
            i <= n + 1,
            m <= n ==> i <= n - m + 1,
            n == s@.len(),
            m == needle@.len(),
            forall|k: int| 0 <= k < i ==> !has_prefix(#[trigger] s@.skip(k), needle@),
        decreases n - m - i + 1,
    {
        let piece = s.substring_char(i, i + m);
        proof {
            assert(s@.skip(i as int).subrange(0, m as int) =~= s@.subrange(
                i as int,
                i as int + m as int,
            ));
            assert(piece@.subrange(0, m as int) =~= piece@);
            assert(has_prefix(piece@, needle@) == has_prefix(s@.skip(i as int), needle@));
        }
        if starts_with(piece, needle) {
            proof {
                lemma_find_sub_at(s@, needle@, i as int);
            }
            return Some(i);
        }
        i += 1;
    }
    proof {
        assert forall|k: int| 0 <= k <= s@.len() implies !has_prefix(
            #[trigger] s@.skip(k),
            needle@,
        ) by {
            if k < i {
            } else {
                assert(s@.skip(k).len() < needle@.len());
            }
        }
        lemma_find_sub_none(s@, needle@);
    }
    None
}

/// The pieces of `s` between occurrences of `needle`, in order.
pub fn split(s: &str, needle: &str) -> (r: Vec<String>)
    requires
        needle@.len() > 0,
    ensures
        r.deep_view() == split_on(s@, needle@),
        r.len() > 0,
{
    let mut parts: Vec<String> = Vec::new();
    let mut rest: String = s.to_owned();
    loop
        invariant
            needle@.len() > 0,
            split_on(s@, needle@) =~= parts.deep_view() + split_on(rest@, needle@),
        decreases rest@.len(),
    {
        let m = needle.unicode_len();
        match find(rest.as_str(), needle) {
            Some(i) => {
                let ghost old_parts = parts.deep_view();
                let ghost old_rest = rest@;
                let rlen = rest.as_str().unicode_len();
                let piece = rest.as_str().substring_char(0, i).to_owned();
                let ghost piece_view = piece@;
                let tail = rest.as_str().substring_char(i + m, rlen);
                let tail = tail.to_owned();
                parts.push(piece);
                rest = tail;
                proof {
                    lemma_split_on_step(old_rest, needle@);
                    assert(piece_view == old_rest.subrange(0, i as int));
                    assert(rest@ =~= old_rest.skip(i + needle@.len()));
                    assert(split_on(old_rest, needle@) == seq![old_rest.subrange(0, i as int)]
                        + split_on(rest@, needle@));
                    assert(parts.deep_view() =~= old_parts.push(piece_view));
                    assert(parts.deep_view() + split_on(rest@, needle@) =~= old_parts + split_on(
                        old_rest,
                        needle@,
                    ));
                }
            },
            None => {
                let ghost old_parts = parts.deep_view();
                let ghost old_rest = rest@;
                parts.push(rest);
                proof {
                    lemma_split_on_step(old_rest, needle@);
                    assert(split_on(old_rest, needle@) =~= seq![old_rest]);
                    assert(parts.deep_view() =~= old_parts.push(old_rest));
                    assert(parts.deep_view() =~= old_parts + seq![old_rest]);
                    assert(parts.deep_view().len() == parts.len());
                }
                return parts;
            },
        }
    }
}

} // verus!
