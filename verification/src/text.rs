//! Character-sequence operations on which the message parsing rests:
//! searching, splitting, replacing and ASCII lower-casing, each stated
//! over `Seq<char>` and proved for the executable version.
use vstd::prelude::*;
use vstd::slice::slice_subrange;
use vstd::slice::slice_to_vec;
use vstd::string::StringExecFns;

verus! {

/// Appends one character to a `String` (`String::push`).
/// Claimed: the string afterwards is the old one followed by `c`.
#[verifier::external_body]
fn push_char(s: &mut String, c: char)
    ensures
        final(s)@ == old(s)@.push(c),
{
    s.push(c);
}

/// The characters of `s`, in order.
pub fn chars_of(s: &str) -> (res: Vec<char>)
    ensures
        res@ == s@,
{
    let mut res: Vec<char> = Vec::new();
    for c in it: s.chars()
        invariant
            res@ == it.seq().take(it.index() as int),
            it.seq() == s@,
    {
        res.push(c);
    }
    res
}

/// The string made of the characters `v`, in order.
pub fn string_of(v: &[char]) -> (res: String)
    ensures
        res@ == v@,
{
    let mut res = String::new();
    let n = v.len();
    for i in 0..n
        invariant
            n == v@.len(),
            res@ == v@.take(i as int),
    {
        push_char(&mut res, v[i]);
        assert(v@.take(i + 1) == v@.take(i as int).push(v@[i as int]));
    }
    assert(v@.take(n as int) == v@);
    res
}

/// `pat` occurs in `s` starting at index `i`.
pub open spec fn occurs_at(s: Seq<char>, pat: Seq<char>, i: int) -> bool {
    0 <= i && i + pat.len() <= s.len() && s.subrange(i, i + pat.len()) == pat
}

/// The first index at or after `i` where `pat` occurs in `s`.
pub open spec fn find_from(s: Seq<char>, pat: Seq<char>, i: int) -> Option<int>
    decreases s.len() + 1 - i,
{
    if i < 0 || i + pat.len() > s.len() {
        None
    } else if occurs_at(s, pat, i) {
        Some(i)
    } else {
        find_from(s, pat, i + 1)
    }
}

/// `pat` occurs somewhere in `s` (the empty pattern occurs in every sequence).
pub open spec fn contains(s: Seq<char>, pat: Seq<char>) -> bool {
    find_from(s, pat, 0) is Some
}

/// What stands before the first occurrence of `pat`, or all of `s` where it does not occur.
pub open spec fn prefix_before(s: Seq<char>, pat: Seq<char>) -> Seq<char> {
    match find_from(s, pat, 0) {
        Some(i) => s.take(i),
        None => s,
    }
}

/// Cutting `s` once, at the first occurrence of `pat`: the part before it and,
/// where `pat` occurs, the part after it (at most two pieces).
pub open spec fn split_once(s: Seq<char>, pat: Seq<char>) -> (Seq<char>, Option<Seq<char>>) {
    match find_from(s, pat, 0) {
        Some(i) => (s.take(i), Some(s.skip(i + pat.len()))),
        None => (s, None),
    }
}

/// Splitting on the empty pattern: an empty piece, each character on its own,
/// and an empty piece again.
pub open spec fn split_on_empty(s: Seq<char>) -> Seq<Seq<char>> {
    seq![Seq::<char>::empty()] + Seq::new(s.len(), |i: int| seq![s[i]]) + seq![
        Seq::<char>::empty(),
    ]
}

/// The pieces of `s` between the successive non-overlapping occurrences of `pat`,
/// searched from the left.
pub open spec fn split_pieces(s: Seq<char>, pat: Seq<char>) -> Seq<Seq<char>>
    decreases s.len(),
{
    if pat.len() == 0 {
        split_on_empty(s)
    } else {
        match find_from(s, pat, 0) {
            Some(i) => {
                proof {
                    lemma_find_from(s, pat, 0);
                }
                seq![s.take(i)] + split_pieces(s.skip(i + pat.len()), pat)
            },
            None => seq![s],
        }
    }
}

/// Every non-overlapping occurrence of `from`, searched from the left, replaced by `to`.
/// (`from` is meant to be non-empty; on the empty pattern this is `s` itself.)
pub open spec fn replace_all(s: Seq<char>, from: Seq<char>, to: Seq<char>) -> Seq<char>
    decreases s.len(),
{
    if from.len() == 0 {
        s
    } else {
        match find_from(s, from, 0) {
            Some(i) => {
                proof {
                    lemma_find_from(s, from, 0);
                }
                s.take(i) + to + replace_all(s.skip(i + from.len()), from, to)
            },
            None => s,
        }
    }
}

/// An ASCII capital letter made small; every other character unchanged.
pub open spec fn ascii_lower(c: char) -> char {
    if 'A' <= c && c <= 'Z' {
        ((c as u32) + 32) as char
    } else {
        c
    }
}

/// `s` with every ASCII capital letter made small.
pub open spec fn lowercase(s: Seq<char>) -> Seq<char> {
    Seq::new(s.len(), |i: int| ascii_lower(s[i]))
}

/// The pieces of `pieces` written one after the other with `sep` between each two.
pub open spec fn join(pieces: Seq<Seq<char>>, sep: Seq<char>) -> Seq<char>
    decreases pieces.len(),
{
    if pieces.len() == 0 {
        Seq::empty()
    } else if pieces.len() == 1 {
        pieces[0]
    } else {
        pieces[0] + sep + join(pieces.drop_first(), sep)
    }
}

/// The character sequences that the vectors of `v` hold, in order.
pub open spec fn views(v: Seq<Vec<char>>) -> Seq<Seq<char>> {
    v.map_values(|p: Vec<char>| p@)
}

/// What `find_from` returns: the least index at or after `i` where `pat` occurs.
pub proof fn lemma_find_from(s: Seq<char>, pat: Seq<char>, i: int)
    requires
        0 <= i,
    ensures
        match find_from(s, pat, i) {
            Some(j) => i <= j && j + pat.len() <= s.len() && occurs_at(s, pat, j) && forall|k: int|
                i <= k < j ==> !#[trigger] occurs_at(s, pat, k),
            None => forall|k: int| i <= k ==> !#[trigger] occurs_at(s, pat, k),
        },
    decreases s.len() + 1 - i,
{
    if i + pat.len() > s.len() {
    } else if occurs_at(s, pat, i) {
    } else {
        lemma_find_from(s, pat, i + 1);
    }
}

/// Searching a suffix of `s` is searching `s` itself, shifted.
pub proof fn lemma_find_shift(s: Seq<char>, pat: Seq<char>, a: int, i: int)
    requires
        0 <= a <= s.len(),
        0 <= i,
    ensures
        find_from(s.skip(a), pat, i) == (match find_from(s, pat, a + i) {
            Some(j) => Some(j - a),
            None => None::<int>,
        }),
    decreases s.len() + 1 - a - i,
{
    let t = s.skip(a);
    if i + pat.len() > t.len() {
    } else {
        assert(t.subrange(i, i + pat.len()) =~= s.subrange(a + i, a + i + pat.len()));
        if occurs_at(t, pat, i) {
        } else {
            lemma_find_shift(s, pat, a, i + 1);
        }
    }
}

/// `pat` occurs in `s` exactly where `contains` says so.
pub proof fn lemma_contains(s: Seq<char>, pat: Seq<char>)
    ensures
        contains(s, pat) <==> exists|k: int| #[trigger] occurs_at(s, pat, k),
{
    lemma_find_from(s, pat, 0);
    if contains(s, pat) {
        let j = find_from(s, pat, 0)->0;
        assert(occurs_at(s, pat, j));
    }
}

/// Cutting at the first occurrence: the part before it holds no occurrence
/// of `pat`, and the two parts with `pat` between them give `s` back; where
/// `pat` does not occur, nothing is cut.
pub proof fn lemma_split_once(s: Seq<char>, pat: Seq<char>)
    requires
        pat.len() > 0,
    ensures
        !contains(split_once(s, pat).0, pat),
        split_once(s, pat).0 == prefix_before(s, pat),
        split_once(s, pat).1 is None ==> split_once(s, pat).0 == s && !contains(s, pat),
        split_once(s, pat).1 matches Some(b) ==> s == split_once(s, pat).0 + pat + b,
{
    lemma_find_from(s, pat, 0);
    let h = split_once(s, pat).0;
    let i = h.len() as int;
    lemma_contains(h, pat);
    lemma_contains(s, pat);
    if contains(h, pat) {
        let k = choose|k: int| #[trigger] occurs_at(h, pat, k);
        assert(h.subrange(k, k + pat.len()) =~= s.subrange(k, k + pat.len()));
        assert(occurs_at(s, pat, k));
    }
    if let Some(b) = split_once(s, pat).1 {
        let j = find_from(s, pat, 0)->0;
        assert(s.subrange(j, j + pat.len()) == pat);
        assert(s =~= h + pat + b);
    }
}

/// The pieces of a split, joined again with `pat`, give `s` back, and no
/// piece holds an occurrence of `pat`.
pub proof fn lemma_split_join(s: Seq<char>, pat: Seq<char>)
    requires
        pat.len() > 0,
    ensures
        split_pieces(s, pat).len() >= 1,
        join(split_pieces(s, pat), pat) == s,
        forall|k: int|
            0 <= k < split_pieces(s, pat).len() ==> !contains(
                #[trigger] split_pieces(s, pat)[k],
                pat,
            ),
    decreases s.len(),
{
    lemma_find_from(s, pat, 0);
    lemma_split_once(s, pat);
    let pieces = split_pieces(s, pat);
    match find_from(s, pat, 0) {
        Some(i) => {
            let rest = s.skip(i + pat.len());
            lemma_split_join(rest, pat);
            let tail = split_pieces(rest, pat);
            assert(pieces.drop_first() =~= tail);
            assert(pieces[0] == s.take(i));
            assert(join(pieces, pat) == s.take(i) + pat + join(tail, pat));
            assert(s =~= s.take(i) + pat + rest);
            assert forall|k: int| 0 <= k < pieces.len() implies !contains(
                #[trigger] pieces[k],
                pat,
            ) by {
                if k > 0 {
                    assert(pieces[k] == tail[k - 1]);
                }
            }
        },
        None => {
        },
    }
}

/// Where the first occurrence of a non-empty `e` in `p + e` is the one after
/// `p`, so it is in `p + e + x` whatever `x` is: everything before it is `p`,
/// which holds no occurrence itself.
pub proof fn lemma_first_occurrence_after(p: Seq<char>, e: Seq<char>, x: Seq<char>)
    requires
        e.len() > 0,
        find_from(p + e, e, 0) == Some(p.len() as int),
    ensures
        find_from(p + e + x, e, 0) == Some(p.len() as int),
        !contains(p, e),
        prefix_before(p + e + x, e) == p,
        prefix_before(p, e) == p,
        split_once(p + e + x, e) == (p, Some(x)),
{
    let s1 = p + e;
    let s2 = p + e + x;
    lemma_find_from(s1, e, 0);
    lemma_find_from(s2, e, 0);
    assert forall|k: int| 0 <= k <= p.len() implies occurs_at(s2, e, k) == occurs_at(s1, e, k) by {
        assert(s2.subrange(k, k + e.len()) =~= s1.subrange(k, k + e.len()));
    }
    assert(occurs_at(s2, e, p.len() as int));
    lemma_contains(p, e);
    if contains(p, e) {
        let k = choose|k: int| #[trigger] occurs_at(p, e, k);
        assert(p.subrange(k, k + e.len()) =~= s1.subrange(k, k + e.len()));
        assert(occurs_at(s1, e, k));
    }
    assert(s2.take(p.len() as int) =~= p);
    assert(s2.skip((p.len() + e.len()) as int) =~= x);
}

/// Replacing every occurrence of `from` by `to` is splitting at `from` and
/// joining the pieces again with `to`.
pub proof fn lemma_replace_is_split_join(s: Seq<char>, from: Seq<char>, to: Seq<char>)
    requires
        from.len() > 0,
    ensures
        replace_all(s, from, to) == join(split_pieces(s, from), to),
    decreases s.len(),
{
    lemma_find_from(s, from, 0);
    match find_from(s, from, 0) {
        Some(i) => {
            let rest = s.skip(i + from.len());
            lemma_replace_is_split_join(rest, from, to);
            lemma_split_join(rest, from);
            let pieces = split_pieces(s, from);
            assert(pieces.drop_first() =~= split_pieces(rest, from));
            assert(join(pieces, to) == s.take(i) + to + join(split_pieces(rest, from), to));
        },
        None => {},
    }
}

/// Small letters stay small: lower-casing twice is lower-casing once.
pub proof fn lemma_lowercase_idempotent(s: Seq<char>)
    ensures
        lowercase(lowercase(s)) == lowercase(s),
{
    assert(lowercase(lowercase(s)) =~= lowercase(s));
}

/// `pat` and `s` hold the same characters from index `i` on.
fn occurs_here(s: &[char], pat: &[char], i: usize) -> (res: bool)
    requires
        i + pat@.len() <= s@.len(),
    ensures
        res == occurs_at(s@, pat@, i as int),
{
    let n = s.len();
    let m = pat.len();
    let mut k: usize = 0;
    while k < m
        invariant
            k <= m,
            m == pat@.len(),
            n == s@.len(),
            i + m <= n,
            forall|t: int| 0 <= t < k ==> s@[i + t] == pat@[t],
        decreases m - k,
    {
        if s[i + k] != pat[k] {
            assert(s@.subrange(i as int, i + m)[k as int] != pat@[k as int]);
            return false;
        }
        k = k + 1;
    }
    assert(s@.subrange(i as int, i + m) =~= pat@);
    true
}

/// The first index at or after `start` where `pat` occurs in `s`.
pub fn find(s: &[char], pat: &[char], start: usize) -> (res: Option<usize>)
    requires
        start <= s@.len(),
    ensures
        match res {
            Some(j) => find_from(s@, pat@, start as int) == Some(j as int),
            None => find_from(s@, pat@, start as int) is None,
        },
{
    let n = s.len();
    let m = pat.len();
    if m > n {
        return None;
    }
    if m == 0 {
        assert(s@.subrange(start as int, start as int) =~= pat@);
        return Some(start);
    }
    let mut i = start;
    while i <= n - m
        invariant
            start <= i <= n,
            0 < m <= n,
            n == s@.len(),
            m == pat@.len(),
            find_from(s@, pat@, start as int) == find_from(s@, pat@, i as int),
        decreases n - i,
    {
        if occurs_here(s, pat, i) {
            return Some(i);
        }
        i = i + 1;
    }
    None
}

/// `pat` occurs somewhere in `s`.
pub fn contains_chars(s: &[char], pat: &[char]) -> (res: bool)
    ensures
        res == contains(s@, pat@),
{
    find(s, pat, 0).is_some()
}

/// `a` and `b` hold the same characters.
pub fn same_chars(a: &[char], b: &[char]) -> (res: bool)
    ensures
        res == (a@ == b@),
{
    if a.len() != b.len() {
        return false;
    }
    let r = occurs_here(a, b, 0);
    proof {
        assert(a@.subrange(0, b@.len() as int) =~= a@);
    }
    r
}

/// What stands before the first occurrence of `pat`, or all of `s`.
pub fn before_first(s: &[char], pat: &[char]) -> (res: Vec<char>)
    ensures
        res@ == prefix_before(s@, pat@),
{
    match find(s, pat, 0) {
        Some(i) => {
            proof {
                lemma_find_from(s@, pat@, 0);
            }
            slice_to_vec(slice_subrange(s, 0, i))
        },
        None => slice_to_vec(s),
    }
}

/// `s` cut once at the first occurrence of `pat`.
pub fn cut_once(s: &[char], pat: &[char]) -> (res: (Vec<char>, Option<Vec<char>>))
    ensures
        res.0@ == split_once(s@, pat@).0,
        match res.1 {
            Some(r) => split_once(s@, pat@).1 == Some(r@),
            None => split_once(s@, pat@).1 is None,
        },
{
    let n = s.len();
    match find(s, pat, 0) {
        Some(i) => {
            proof {
                lemma_find_from(s@, pat@, 0);
            }
            let head = slice_to_vec(slice_subrange(s, 0, i));
            let tail = slice_to_vec(slice_subrange(s, i + pat.len(), n));
            (head, Some(tail))
        },
        None => (slice_to_vec(s), None),
    }
}

/// The pieces of `s` between the occurrences of `pat`.
pub fn split(s: &[char], pat: &[char]) -> (res: Vec<Vec<char>>)
    ensures
        views(res@) == split_pieces(s@, pat@),
{
    let n = s.len();
    let m = pat.len();
    let mut pieces: Vec<Vec<char>> = Vec::new();
    if m == 0 {
        pieces.push(Vec::new());
        for i in 0..n
            invariant
                n == s@.len(),
                views(pieces@) =~= seq![Seq::<char>::empty()] + Seq::new(
                    i as nat,
                    |k: int| seq![s@[k]],
                ),
        {
            let mut one: Vec<char> = Vec::new();
            one.push(s[i]);
            assert(one@ =~= seq![s@[i as int]]);
            let ghost prev = pieces@;
            pieces.push(one);
            assert(views(pieces@) =~= views(prev).push(one@));
        }
        pieces.push(Vec::new());
        assert(views(pieces@) =~= split_on_empty(s@));
        return pieces;
    }
    let mut start: usize = 0;
    assert(s@.skip(0) =~= s@);
    loop
        invariant
            start <= n,
            n == s@.len(),
            m == pat@.len(),
            m > 0,
            split_pieces(s@, pat@) == views(pieces@) + split_pieces(s@.skip(start as int), pat@),
        decreases n - start,
    {
        let ghost rest = s@.skip(start as int);
        proof {
            lemma_find_shift(s@, pat@, start as int, 0);
            lemma_find_from(s@, pat@, start as int);
        }
        match find(s, pat, start) {
            Some(j) => {
                let piece = slice_to_vec(slice_subrange(s, start, j));
                proof {
                    assert(rest.take(j - start) =~= piece@);
                    assert(rest.skip(j - start + m) =~= s@.skip(j + m));
                    assert(split_pieces(rest, pat@) == seq![piece@] + split_pieces(
                        s@.skip(j + m),
                        pat@,
                    ));
                }
                let ghost prev = views(pieces@);
                pieces.push(piece);
                proof {
                    assert(views(pieces@) =~= prev.push(piece@));
                    assert(prev + (seq![piece@] + split_pieces(s@.skip(j + m), pat@)) =~= prev.push(
                        piece@,
                    ) + split_pieces(s@.skip(j + m), pat@));
                }
                start = j + m;
            },
            None => {
                let piece = slice_to_vec(slice_subrange(s, start, n));
                assert(piece@ =~= rest);
                let ghost prev = views(pieces@);
                pieces.push(piece);
                assert(views(pieces@) =~= prev + seq![rest]);
                return pieces;
            },
        }
    }
}

/// `s` with every occurrence of the non-empty `from` replaced by `to`.
pub fn replace(s: &[char], from: &[char], to: &[char]) -> (res: Vec<char>)
    requires
        from@.len() > 0,
    ensures
        res@ == replace_all(s@, from@, to@),
{
    let n = s.len();
    let m = from.len();
    let mut out: Vec<char> = Vec::new();
    let mut start: usize = 0;
    assert(s@.skip(0) =~= s@);
    loop
        invariant
            start <= n,
            n == s@.len(),
            m == from@.len(),
            m > 0,
            replace_all(s@, from@, to@) == out@ + replace_all(s@.skip(start as int), from@, to@),
        decreases n - start,
    {
        let ghost rest = s@.skip(start as int);
        proof {
            lemma_find_shift(s@, from@, start as int, 0);
            lemma_find_from(s@, from@, start as int);
        }
        match find(s, from, start) {
            Some(j) => {
                let ghost prev = out@;
                let mut k = start;
                while k < j
                    invariant
                        start <= k <= j,
                        j <= n,
                        n == s@.len(),
                        out@ == prev + s@.subrange(start as int, k as int),
                    decreases j - k,
                {
                    out.push(s[k]);
                    assert(s@.subrange(start as int, k + 1) =~= s@.subrange(start as int, k as int).push(s@[k as int]));
                    k = k + 1;
                }
                let ghost mid = out@;
                let mut t: usize = 0;
                while t < to.len()
                    invariant
                        t <= to@.len(),
                        out@ == mid + to@.take(t as int),
                    decreases to@.len() - t,
                {
                    out.push(to[t]);
                    assert(to@.take(t + 1) =~= to@.take(t as int).push(to@[t as int]));
                    t = t + 1;
                }
                proof {
                    assert(to@.take(to@.len() as int) =~= to@);
                    assert(rest.take(j - start) =~= s@.subrange(start as int, j as int));
                    assert(rest.skip(j - start + m) =~= s@.skip(j + m));
                    assert(out@ + replace_all(s@.skip(j + m), from@, to@) =~= prev + (rest.take(j - start) + to@ + replace_all(rest.skip(j - start + m), from@, to@)));
                }
                start = j + m;
            },
            None => {
                let ghost prev = out@;
                let mut k = start;
                while k < n
                    invariant
                        start <= k <= n,
                        n == s@.len(),
                        out@ == prev + s@.subrange(start as int, k as int),
                    decreases n - k,
                {
                    out.push(s[k]);
                    assert(s@.subrange(start as int, k + 1) =~= s@.subrange(start as int, k as int).push(s@[k as int]));
                    k = k + 1;
                }
                assert(s@.subrange(start as int, n as int) =~= rest);
                return out;
            },
        }
    }
}

/// The small-letter form of an ASCII capital; every other character unchanged.
pub fn lower_char(c: char) -> (res: char)
    ensures
        res == ascii_lower(c),
{
    if 'A' <= c && c <= 'Z' {
        let b: u8 = c as u8;
        (b + 32) as char
    } else {
        c
    }
}

/// `s` with every ASCII capital letter made small.
pub fn to_lowercase(s: &[char]) -> (res: Vec<char>)
    ensures
        res@ == lowercase(s@),
{
    let n = s.len();
    let mut out: Vec<char> = Vec::new();
    for i in 0..n
        invariant
            n == s@.len(),
            out@ =~= lowercase(s@.take(i as int)),
    {
        out.push(lower_char(s[i]));
        assert(lowercase(s@.take(i + 1)) =~= lowercase(s@.take(i as int)).push(ascii_lower(s@[i as int])));
    }
    assert(s@.take(n as int) =~= s@);
    out
}

/// Appends the characters of `more` to `out`.
pub fn append_chars(out: &mut Vec<char>, more: &[char])
    ensures
        final(out)@ == old(out)@ + more@,
{
    let ghost start = out@;
    let n = more.len();
    for i in 0..n
        invariant
            n == more@.len(),
            out@ == start + more@.take(i as int),
    {
        out.push(more[i]);
        assert(more@.take(i + 1) =~= more@.take(i as int).push(more@[i as int]));
    }
    assert(more@.take(n as int) =~= more@);
}

/// `a` followed by `b`.
pub fn concatenate(a: &str, b: &str) -> (res: String)
    ensures
        res@ == a@ + b@,
{
    let mut s = a.to_owned();
    s.append(b);
    s
}

/// The decimal digit `d` as a character.
pub open spec fn digit_char(d: nat) -> char {
    ((d + 48) as u8) as char
}

/// The decimal notation of `n`, without leading zeros.
pub open spec fn decimal(n: nat) -> Seq<char>
    decreases n,
{
    if n < 10 {
        seq![digit_char(n)]
    } else {
        decimal(n / 10).push(digit_char(n % 10))
    }
}

/// Appends the decimal notation of `n` to `out`.
fn push_decimal(out: &mut Vec<char>, n: u32)
    ensures
        final(out)@ == old(out)@ + decimal(n as nat),
    decreases n,
{
    if n >= 10 {
        push_decimal(out, n / 10);
    }
    let d: u8 = (n % 10) as u8;
    let c: char = (d + 48) as char;
    out.push(c);
    assert(out@ =~= old(out)@ + decimal(n as nat));
}

/// The decimal notation of `n`.
pub fn decimal_string(n: u32) -> (res: String)
    ensures
        res@ == decimal(n as nat),
{
    let mut v: Vec<char> = Vec::new();
    push_decimal(&mut v, n);
    assert(v@ =~= decimal(n as nat));
    string_of(&v)
}

/// The number that a sequence of decimal digits reads as.
pub open spec fn digits_value(s: Seq<char>) -> int
    decreases s.len(),
{
    if s.len() == 0 {
        0
    } else {
        digits_value(s.drop_last()) * 10 + (s.last() as int - 48)
    }
}

/// The decimal notation of `n` is made of digits only, has no leading zero,
/// and reads as `n`.
pub proof fn lemma_decimal_reads_back(n: nat)
    ensures
        decimal(n).len() >= 1,
        forall|i: int| 0 <= i < decimal(n).len() ==> '0' <= #[trigger] decimal(n)[i] <= '9',
        decimal(n)[0] != '0' || decimal(n).len() == 1,
        digits_value(decimal(n)) == n,
    decreases n,
{
    if n < 10 {
        lemma_digit_char(n);
        assert(decimal(n).drop_last() =~= Seq::<char>::empty());
        assert(digits_value(decimal(n)) == digits_value(Seq::<char>::empty()) * 10 + (decimal(
            n,
        ).last() as int - 48));
    } else {
        lemma_decimal_reads_back(n / 10);
        lemma_digit_char(n % 10);
        let d = decimal(n);
        assert(d.drop_last() =~= decimal(n / 10));
        assert(d[0] == decimal(n / 10)[0]);
        if decimal(n / 10).len() == 1 {
            if n / 10 >= 10 {
                assert(decimal(n / 10).len() == decimal(n / 10 / 10).len() + 1);
            }
            lemma_digit_char(n / 10);
        }
        assert(d.last() == digit_char(n % 10));
        assert(digits_value(d) == digits_value(decimal(n / 10)) * 10 + (d.last() as int - 48));
        assert((n / 10) * 10 + n % 10 == n) by (nonlinear_arith);
    }
}

/// The character of digit `d` stands `d` places after `'0'`.
proof fn lemma_digit_char(d: nat)
    requires
        d < 10,
    ensures
        digit_char(d) as int == d + 48,
        '0' <= digit_char(d) <= '9',
{
    assert(((d + 48) as u8) as int == d + 48);
}

} // verus!
