//! Text helpers on `str`: the splitting, trimming and joining that the
//! header and path rules are made of, each against a spec of its own.

use vstd::prelude::*;

verus! {

/// `s` with every leading `c` removed (`str::trim_start_matches` with a char).
pub open spec fn trim_start_char(s: Seq<char>, c: char) -> Seq<char>
    decreases s.len(),
{
    if s.len() > 0 && s[0] == c {
        trim_start_char(s.drop_first(), c)
    } else {
        s
    }
}

/// Unicode `White_Space` (what `char::is_whitespace` tests).
pub open spec fn is_whitespace(c: char) -> bool {
    let u = c as u32;
    ||| (9 <= u && u <= 13)
    ||| u == 32 || u == 0x85 || u == 0xa0 || u == 0x1680
    ||| (0x2000 <= u && u <= 0x200a)
    ||| u == 0x2028 || u == 0x2029 || u == 0x202f || u == 0x205f || u == 0x3000
}

/// `s` without its leading whitespace.
pub open spec fn trim_start_ws(s: Seq<char>) -> Seq<char>
    decreases s.len(),
{
    if s.len() > 0 && is_whitespace(s[0]) {
        trim_start_ws(s.drop_first())
    } else {
        s
    }
}

/// `s` without its trailing whitespace.
pub open spec fn trim_end_ws(s: Seq<char>) -> Seq<char>
    decreases s.len(),
{
    if s.len() > 0 && is_whitespace(s.last()) {
        trim_end_ws(s.drop_last())
    } else {
        s
    }
}

/// `s` without leading and trailing whitespace (`str::trim`).
pub open spec fn trim_ws(s: Seq<char>) -> Seq<char> {
    trim_end_ws(trim_start_ws(s))
}

/// The pieces of `s` between occurrences of `sep`, `cur` being the piece
/// read so far.
pub open spec fn split_from(s: Seq<char>, sep: char, cur: Seq<char>) -> Seq<Seq<char>>
    decreases s.len(),
{
    if s.len() == 0 {
        seq![cur]
    } else if s[0] == sep {
        seq![cur] + split_from(s.drop_first(), sep, Seq::empty())
    } else {
        split_from(s.drop_first(), sep, cur.push(s[0]))
    }
}

/// The pieces of `s` between occurrences of `sep` (`str::split` with a
/// char): there is always one more piece than there are separators.
pub open spec fn split_on(s: Seq<char>, sep: char) -> Seq<Seq<char>> {
    split_from(s, sep, Seq::empty())
}

/// The pieces joined with `sep` between each two (`[_]::join`).
pub open spec fn join_with(pieces: Seq<Seq<char>>, sep: Seq<char>) -> Seq<char>
    decreases pieces.len(),
{
    if pieces.len() == 0 {
        Seq::empty()
    } else if pieces.len() == 1 {
        pieces[0]
    } else {
        join_with(pieces.drop_last(), sep) + sep + pieces.last()
    }
}

/// Whether two texts are equal, character by character.
pub fn text_eq(a: &str, b: &str) -> (same: bool)
    ensures
        same == (a@ == b@),
{
    let n = a.unicode_len();
    if n != b.unicode_len() {
        return false;
    }
    let mut i: usize = 0;
    while i < n
        invariant
            n == a@.len(),
            n == b@.len(),
            i <= n,
            forall|j: int| 0 <= j < i ==> a@[j] == b@[j],
        decreases n - i,
    {
        if a.get_char(i) != b.get_char(i) {
            return false;
        }
        i = i + 1;
    }
    assert(a@ =~= b@);
    true
}

proof fn lemma_trim_start_char_skip(s: Seq<char>, c: char, i: int)
    requires
        0 <= i < s.len(),
        s[i] == c,
    ensures
        trim_start_char(s.skip(i), c) == trim_start_char(s.skip(i + 1), c),
{
    assert(s.skip(i).drop_first() =~= s.skip(i + 1));
}

/// `s` with every leading `/` removed.
pub fn trim_leading_slashes(s: &str) -> (rest: &str)
    ensures
        rest@ == trim_start_char(s@, '/'),
{
    let n = s.unicode_len();
    let mut i: usize = 0;
    assert(s@.skip(0) =~= s@);
    while i < n && s.get_char(i) == '/'
        invariant
            n == s@.len(),
            i <= n,
            trim_start_char(s@, '/') == trim_start_char(s@.skip(i as int), '/'),
        decreases n - i,
    {
        proof {
            lemma_trim_start_char_skip(s@, '/', i as int);
        }
        i = i + 1;
    }
    assert(s@.skip(i as int) =~= s@.subrange(i as int, n as int));
    s.substring_char(i, n)
}

/// Whether `c` is whitespace (`char::is_whitespace`).
pub fn char_is_whitespace(c: char) -> (ws: bool)
    ensures
        ws == is_whitespace(c),
{
    let u = c as u32;
    (9 <= u && u <= 13) || u == 32 || u == 0x85 || u == 0xa0 || u == 0x1680 || (0x2000 <= u && u
        <= 0x200a) || u == 0x2028 || u == 0x2029 || u == 0x202f || u == 0x205f || u == 0x3000
}

proof fn lemma_trim_start_ws_skip(s: Seq<char>, i: int)
    requires
        0 <= i < s.len(),
        is_whitespace(s[i]),
    ensures
        trim_start_ws(s.skip(i)) == trim_start_ws(s.skip(i + 1)),
{
    assert(s.skip(i).drop_first() =~= s.skip(i + 1));
}

proof fn lemma_trim_end_ws_take(s: Seq<char>, j: int)
    requires
        0 < j <= s.len(),
        is_whitespace(s[j - 1]),
    ensures
        trim_end_ws(s.take(j)) == trim_end_ws(s.take(j - 1)),
{
    assert(s.take(j).drop_last() =~= s.take(j - 1));
}

/// `s` without leading and trailing whitespace.
pub fn trim(s: &str) -> (t: &str)
    ensures
        t@ == trim_ws(s@),
{
    let n = s.unicode_len();
    let mut i: usize = 0;
    assert(s@.skip(0) =~= s@);
    while i < n && char_is_whitespace(s.get_char(i))
        invariant
            n == s@.len(),
            i <= n,
            trim_start_ws(s@) == trim_start_ws(s@.skip(i as int)),
        decreases n - i,
    {
        proof {
            lemma_trim_start_ws_skip(s@, i as int);
        }
        i = i + 1;
    }
    let ghost rest = s@.skip(i as int);
    assert(trim_start_ws(rest) == rest);
    let mut j: usize = n;
    assert(rest.take(rest.len() as int) =~= rest);
    while j > i && char_is_whitespace(s.get_char(j - 1))
        invariant
            n == s@.len(),
            i <= j <= n,
            rest == s@.skip(i as int),
            trim_end_ws(rest) == trim_end_ws(rest.take(j - i)),
        decreases j,
    {
        proof {
            lemma_trim_end_ws_take(rest, j - i);
        }
        j = j - 1;
    }
    assert(rest.take(j - i) =~= s@.subrange(i as int, j as int));
    s.substring_char(i, j)
}

proof fn lemma_split_step(s: Seq<char>, sep: char, start: int, i: int)
    requires
        0 <= start <= i < s.len(),
    ensures
        s[i] == sep ==> split_from(s.skip(i), sep, s.subrange(start, i)) == seq![s.subrange(start, i)]
            + split_from(s.skip(i + 1), sep, s.subrange(i + 1, i + 1)),
        s[i] != sep ==> split_from(s.skip(i), sep, s.subrange(start, i)) == split_from(
            s.skip(i + 1),
            sep,
            s.subrange(start, i + 1),
        ),
{
    assert(s.skip(i).drop_first() =~= s.skip(i + 1));
    assert(s.subrange(start, i).push(s[i]) =~= s.subrange(start, i + 1));
    assert(s.subrange(i + 1, i + 1) =~= Seq::<char>::empty());
}

/// The pieces of `s` between its commas.
pub fn split_commas(s: &str) -> (pieces: Vec<&str>)
    ensures
        pieces@.map_values(|p: &str| p@) == split_on(s@, ','),
{
    let n = s.unicode_len();
    let mut pieces: Vec<&str> = Vec::new();
    let mut start: usize = 0;
    let mut i: usize = 0;
    assert(s@.skip(0) =~= s@);
    assert(s@.subrange(0, 0) =~= Seq::<char>::empty());
    while i < n
        invariant
            n == s@.len(),
            start <= i <= n,
            split_on(s@, ',') == pieces@.map_values(|p: &str| p@) + split_from(
                s@.skip(i as int),
                ',',
                s@.subrange(start as int, i as int),
            ),
        decreases n - i,
    {
        proof {
            lemma_split_step(s@, ',', start as int, i as int);
        }
        if s.get_char(i) == ',' {
            let piece = s.substring_char(start, i);
            let ghost before = pieces@.map_values(|p: &str| p@);
            pieces.push(piece);
            assert(pieces@.map_values(|p: &str| p@) =~= before.push(piece@));
            start = i + 1;
        }
        i = i + 1;
    }
    let last = s.substring_char(start, n);
    let ghost before = pieces@.map_values(|p: &str| p@);
    assert(s@.skip(n as int) =~= Seq::<char>::empty());
    pieces.push(last);
    assert(pieces@.map_values(|p: &str| p@) =~= before.push(last@));
    pieces
}

/// The pieces joined with `sep` between each two.
pub fn join(pieces: &Vec<String>, sep: &str) -> (joined: String)
    ensures
        joined@ == join_with(pieces@.map_values(|p: String| p@), sep@),
{
    let ghost all = pieces@.map_values(|p: String| p@);
    let mut joined = String::new();
    let mut i: usize = 0;
    assert(all.take(0) =~= Seq::<Seq<char>>::empty());
    while i < pieces.len()
        invariant
            all == pieces@.map_values(|p: String| p@),
            i <= pieces.len(),
            joined@ == join_with(all.take(i as int), sep@),
        decreases pieces.len() - i,
    {
        if i > 0 {
            joined.append(sep);
        }
        joined.append(pieces[i].as_str());
        assert(all.take(i + 1).drop_last() =~= all.take(i as int));
        proof {
            if i == 0 {
                assert(joined@ =~= all.take(1)[0]);
            }
        }
        i = i + 1;
    }
    assert(all.take(pieces.len() as int) =~= all);
    joined
}

} // verus!
