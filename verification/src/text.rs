//! Text as sequences of characters: searching, splitting, trimming and
//! formatting, each stated over `Seq<char>`.

use vstd::prelude::*;

verus! {

/// Whether `pat` occurs in `s` starting at position `k`.
pub open spec fn occurs_at(s: Seq<char>, pat: Seq<char>, k: int) -> bool {
    &&& 0 <= k
    &&& k + pat.len() <= s.len()
    &&& s.subrange(k, k + pat.len()) == pat
}

/// The first position at or after `from` where `pat` occurs in `s`.
pub open spec fn find_from(s: Seq<char>, pat: Seq<char>, from: int) -> Option<int>
    decreases s.len() + 1 - from,
{
    if from + pat.len() > s.len() {
        None
    } else if occurs_at(s, pat, from) {
        Some(from)
    } else {
        find_from(s, pat, from + 1)
    }
}

/// Whether `pat` occurs anywhere in `s`.
pub open spec fn contains(s: Seq<char>, pat: Seq<char>) -> bool {
    find_from(s, pat, 0) is Some
}

/// A position found by [`find_from`] is an occurrence at or after the start of
/// the search, and the first one.
pub proof fn lemma_find_from(s: Seq<char>, pat: Seq<char>, from: int)
    requires
        0 <= from,
    ensures
        match find_from(s, pat, from) {
            Some(k) => from <= k && occurs_at(s, pat, k) && forall|j: int|
                from <= j < k ==> !occurs_at(s, pat, j),
            None => forall|j: int| from <= j ==> !occurs_at(s, pat, j),
        },
    decreases s.len() + 1 - from,
{
    if from + pat.len() > s.len() {
    } else if occurs_at(s, pat, from) {
    } else {
        lemma_find_from(s, pat, from + 1);
    }
}

/// The pieces of `s` from position `start` on, cut at each non-overlapping
/// occurrence of `pat` found from left to right.
pub open spec fn split_from(s: Seq<char>, pat: Seq<char>, start: int) -> Seq<Seq<char>>
    decreases s.len() - start,
{
    match find_from(s, pat, start) {
        Some(k) => if start <= k && 0 < pat.len() && k + pat.len() <= s.len() {
            seq![s.subrange(start, k)] + split_from(s, pat, k + pat.len())
        } else {
            seq![s.skip(start)]
        },
        None => seq![s.skip(start)],
    }
}

/// The pieces of `s` between occurrences of `pat`; there is always at least one.
pub open spec fn split_on(s: Seq<char>, pat: Seq<char>) -> Seq<Seq<char>> {
    split_from(s, pat, 0)
}

/// The character sequences held by a sequence of vectors.
pub open spec fn seqs(v: Seq<Vec<char>>) -> Seq<Seq<char>> {
    v.map_values(|x: Vec<char>| x@)
}

/// The texts held by a sequence of strings.
pub open spec fn texts(v: Seq<String>) -> Seq<Seq<char>> {
    v.map_values(|x: String| x@)
}

/// `s` without its leading run of `c`.
pub open spec fn trim_start(s: Seq<char>, c: char) -> Seq<char>
    decreases s.len(),
{
    if s.len() > 0 && s[0] == c {
        trim_start(s.skip(1), c)
    } else {
        s
    }
}

/// `s` without its trailing run of `c`.
pub open spec fn trim_end(s: Seq<char>, c: char) -> Seq<char>
    decreases s.len(),
{
    if s.len() > 0 && s.last() == c {
        trim_end(s.drop_last(), c)
    } else {
        s
    }
}

/// The texts of `parts` joined with `sep` between neighbours.
pub open spec fn joined(parts: Seq<Seq<char>>, sep: Seq<char>) -> Seq<char>
    decreases parts.len(),
{
    if parts.len() == 0 {
        Seq::empty()
    } else if parts.len() == 1 {
        parts[0]
    } else {
        joined(parts.drop_last(), sep) + sep + parts.last()
    }
}

/// The decimal digit character for `d` in `0..10`.
pub open spec fn digit_char(d: int) -> char {
    (('0' as int) + d) as char
}

/// The decimal digits of a natural number, with no leading zero.
pub open spec fn digits(n: nat) -> Seq<char>
    decreases n,
{
    if n < 10 {
        seq![digit_char(n as int)]
    } else {
        digits(n / 10).push(digit_char((n % 10) as int))
    }
}

/// The decimal text of an integer, with a leading minus sign when negative.
pub open spec fn decimal(n: int) -> Seq<char> {
    if n < 0 {
        seq!['-'] + digits((-n) as nat)
    } else {
        digits(n as nat)
    }
}

/// The text of a boolean.
pub open spec fn bool_text(b: bool) -> Seq<char> {
    if b {
        "true"@
    } else {
        "false"@
    }
}

/// The text inside `value`, or `default` where there is none.
pub open spec fn text_or(value: Option<Seq<char>>, default: Seq<char>) -> Seq<char> {
    match value {
        Some(t) => t,
        None => default,
    }
}

/// The text inside an optional string.
pub open spec fn opt_text(value: Option<String>) -> Option<Seq<char>> {
    match value {
        Some(t) => Some(t@),
        None => None,
    }
}

/// The characters of a string.
pub fn chars_of(s: &str) -> (r: Vec<char>)
    ensures
        r@ == s@,
{
    let mut v: Vec<char> = Vec::new();
    for c in it: s.chars()
        invariant
            v@ == s@.take(it.index() as int),
            it.seq() == s@,
    {
        v.push(c);
    }
    v
}

/// Gives `String::push` its contract.
///
/// Trusted: it appends the character to the end of the string.
pub assume_specification[ String::push ](s: &mut String, c: char)
    ensures
        final(s)@ == old(s)@.push(c),
;

/// The string with these characters.
pub fn string_of(chars: &[char]) -> (r: String)
    ensures
        r@ == chars@,
{
    let mut out: String = String::new();
    let mut i: usize = 0;
    while i < chars.len()
        invariant
            i <= chars@.len(),
            out@ == chars@.take(i as int),
        decreases chars@.len() - i,
    {
        out.push(chars[i]);
        i += 1;
        assert(chars@.take(i as int) == chars@.take(i - 1).push(chars@[i - 1]));
    }
    assert(chars@.take(i as int) == chars@);
    out
}

/// Whether two strings hold the same text.
pub fn str_eq(a: &str, b: &str) -> (r: bool)
    ensures
        r == (a@ == b@),
{
    let x: String = a.to_owned();
    let y: String = b.to_owned();
    x == y
}

/// Whether two character slices are equal.
pub fn chars_eq(a: &[char], b: &[char]) -> (r: bool)
    ensures
        r == (a@ == b@),
{
    if a.len() != b.len() {
        return false;
    }
    let mut i: usize = 0;
    while i < a.len()
        invariant
            a@.len() == b@.len(),
            i <= a@.len(),
            a@.take(i as int) == b@.take(i as int),
        decreases a@.len() - i,
    {
        if a[i] != b[i] {
            assert(a@[i as int] != b@[i as int]);
            return false;
        }
        i += 1;
        assert(a@.take(i as int) == a@.take(i - 1).push(a@[i - 1]));
        assert(b@.take(i as int) == b@.take(i - 1).push(b@[i - 1]));
    }
    assert(a@.take(i as int) == a@);
    assert(b@.take(i as int) == b@);
    true
}

/// The characters of `s` in `start..end`.
pub fn copy_range(s: &[char], start: usize, end: usize) -> (r: Vec<char>)
    requires
        start <= end <= s@.len(),
    ensures
        r@ == s@.subrange(start as int, end as int),
{
    let mut out: Vec<char> = Vec::new();
    let mut i: usize = start;
    while i < end
        invariant
            start <= i <= end <= s@.len(),
            out@ == s@.subrange(start as int, i as int),
        decreases end - i,
    {
        out.push(s[i]);
        i += 1;
        assert(s@.subrange(start as int, i as int) == s@.subrange(start as int, i - 1).push(
            s@[i - 1],
        ));
    }
    out
}

/// Whether `pat` occurs in `s` at position `k`.
fn occurs(s: &[char], pat: &[char], k: usize) -> (r: bool)
    requires
        k + pat@.len() <= s@.len(),
    ensures
        r == occurs_at(s@, pat@, k as int),
{
    let total: usize = s.len();
    assert(k + pat@.len() <= total);
    let piece: Vec<char> = copy_range(s, k, k + pat.len());
    chars_eq(piece.as_slice(), pat)
}

/// The first position at or after `from` where `pat` occurs in `s`.
pub fn find(s: &[char], pat: &[char], from: usize) -> (r: Option<usize>)
    requires
        from <= s@.len(),
    ensures
        match r {
            Some(k) => find_from(s@, pat@, from as int) == Some(k as int),
            None => find_from(s@, pat@, from as int) is None,
        },
{
    let mut i: usize = from;
    while i <= s.len() && pat.len() <= s.len() - i
        invariant
            from <= i,
            i <= s@.len() + 1,
            find_from(s@, pat@, from as int) == find_from(s@, pat@, i as int),
        decreases s@.len() + 1 - i,
    {
        if occurs(s, pat, i) {
            return Some(i);
        }
        if i == s.len() {
            assert(s@.subrange(i as int, i as int) == pat@);
            return None;
        }
        i += 1;
    }
    None
}

/// The pieces of `s` between occurrences of `pat`.
pub fn split(s: &[char], pat: &[char]) -> (r: Vec<Vec<char>>)
    requires
        pat@.len() > 0,
    ensures
        seqs(r@) == split_on(s@, pat@),
        r@.len() >= 1,
{
    let mut pieces: Vec<Vec<char>> = Vec::new();
    let mut start: usize = 0;
    loop
        invariant
            pat@.len() > 0,
            start <= s@.len(),
            split_on(s@, pat@) == seqs(pieces@) + split_from(s@, pat@, start as int),
        decreases s@.len() - start,
    {
        let hit: Option<usize> = find(s, pat, start);
        proof {
            lemma_find_from(s@, pat@, start as int);
        }
        match hit {
            None => {
                let ghost before = pieces@;
                let piece: Vec<char> = copy_range(s, start, s.len());
                pieces.push(piece);
                assert(piece@ == s@.skip(start as int));
                assert(seqs(pieces@) == seqs(before) + seq![s@.skip(start as int)]);
                return pieces;
            },
            Some(k) => {
                let ghost before = pieces@;
                let piece: Vec<char> = copy_range(s, start, k);
                pieces.push(piece);
                assert(seqs(pieces@) == seqs(before) + seq![piece@]);
                let total: usize = s.len();
                assert(k + pat@.len() <= total);
                start = k + pat.len();
                assert(split_on(s@, pat@) == seqs(pieces@) + split_from(s@, pat@, start as int));
            },
        }
    }
}

/// Whether `c` occurs in `s`.
pub fn has_char(s: &str, c: char) -> (r: bool)
    ensures
        r == s@.contains(c),
{
    let chars: Vec<char> = chars_of(s);
    let mut i: usize = 0;
    while i < chars.len()
        invariant
            i <= chars@.len(),
            chars@ == s@,
            forall|k: int| 0 <= k < i ==> chars@[k] != c,
        decreases chars@.len() - i,
    {
        if chars[i] == c {
            return true;
        }
        i += 1;
    }
    false
}

/// Whether `s` begins with `prefix`.
pub fn starts_with(s: &[char], prefix: &[char]) -> (r: bool)
    ensures
        r == prefix@.is_prefix_of(s@),
{
    if prefix.len() > s.len() {
        return false;
    }
    occurs(s, prefix, 0)
}

/// Whether `s` ends with `suffix`.
pub fn ends_with(s: &[char], suffix: &[char]) -> (r: bool)
    ensures
        r == suffix@.is_suffix_of(s@),
{
    if suffix.len() > s.len() {
        return false;
    }
    occurs(s, suffix, s.len() - suffix.len())
}

/// The number of leading characters of `s` equal to `c`.
pub fn leading_run(s: &[char], c: char) -> (n: usize)
    ensures
        n <= s@.len(),
        trim_start(s@, c) == s@.skip(n as int),
{
    let mut i: usize = 0;
    assert(s@.skip(0) == s@);
    while i < s.len() && s[i] == c
        invariant
            i <= s@.len(),
            trim_start(s@, c) == trim_start(s@.skip(i as int), c),
        decreases s@.len() - i,
    {
        assert(s@.skip(i as int)[0] == c);
        assert(s@.skip(i as int).skip(1) == s@.skip(i + 1));
        i += 1;
    }
    if i < s.len() {
        assert(s@.skip(i as int)[0] == s@[i as int]);
    }
    i
}

/// The length of `s` once its trailing run of `c` is dropped.
pub fn trimmed_len(s: &[char], c: char) -> (n: usize)
    ensures
        n <= s@.len(),
        trim_end(s@, c) == s@.take(n as int),
{
    let mut n: usize = s.len();
    assert(s@.take(n as int) == s@);
    while n > 0 && s[n - 1] == c
        invariant
            n <= s@.len(),
            trim_end(s@, c) == trim_end(s@.take(n as int), c),
        decreases n,
    {
        assert(s@.take(n as int).last() == c);
        assert(s@.take(n as int).drop_last() == s@.take(n - 1));
        n -= 1;
    }
    if n > 0 {
        assert(s@.take(n as int).last() == s@[n - 1]);
    }
    n
}

/// The text of one decimal digit.
fn digit_text(d: u64) -> (r: &'static str)
    requires
        d < 10,
    ensures
        r@ == seq![digit_char(d as int)],
{
    proof {
        reveal_strlit("0");
        reveal_strlit("1");
        reveal_strlit("2");
        reveal_strlit("3");
        reveal_strlit("4");
        reveal_strlit("5");
        reveal_strlit("6");
        reveal_strlit("7");
        reveal_strlit("8");
        reveal_strlit("9");
    }
    if d == 0 {
        "0"
    } else if d == 1 {
        "1"
    } else if d == 2 {
        "2"
    } else if d == 3 {
        "3"
    } else if d == 4 {
        "4"
    } else if d == 5 {
        "5"
    } else if d == 6 {
        "6"
    } else if d == 7 {
        "7"
    } else if d == 8 {
        "8"
    } else {
        "9"
    }
}

/// The decimal text of an unsigned integer.
pub fn u64_text(n: u64) -> (r: String)
    ensures
        r@ == decimal(n as int),
    decreases n,
{
    if n < 10 {
        digit_text(n).to_owned()
    } else {
        let mut head: String = u64_text(n / 10);
        head.append(digit_text(n % 10));
        assert(head@ == digits((n / 10) as nat) + seq![digit_char((n % 10) as int)]);
        assert(head@ == digits((n / 10) as nat).push(digit_char((n % 10) as int)));
        head
    }
}

/// The decimal text of a signed integer.
pub fn i64_text(n: i64) -> (r: String)
    ensures
        r@ == decimal(n as int),
{
    if n < 0 {
        let magnitude: u64 = if n == i64::MIN {
            9223372036854775808u64
        } else {
            (-n) as u64
        };
        proof {
            reveal_strlit("-");
        }
        let mut out: String = "-".to_owned();
        let body: String = u64_text(magnitude);
        out.append(body.as_str());
        assert(out@ == seq!['-'] + digits(magnitude as nat));
        out
    } else {
        u64_text(n as u64)
    }
}

/// The text of a boolean.
pub fn bool_str(b: bool) -> (r: &'static str)
    ensures
        r@ == bool_text(b),
{
    if b {
        "true"
    } else {
        "false"
    }
}

/// The texts of `parts` joined with `sep` between neighbours.
pub fn join(parts: &Vec<String>, sep: &str) -> (r: String)
    ensures
        r@ == joined(texts(parts@), sep@),
{
    let mut out: String = String::new();
    let mut i: usize = 0;
    while i < parts.len()
        invariant
            i <= parts@.len(),
            out@ == joined(texts(parts@).take(i as int), sep@),
        decreases parts@.len() - i,
    {
        if i > 0 {
            out.append(sep);
        }
        out.append(parts[i].as_str());
        i += 1;
        proof {
            let t = texts(parts@).take(i as int);
            assert(t.drop_last() == texts(parts@).take(i - 1));
            assert(t.last() == parts@[i - 1]@);
            if i == 1 {
                assert(out@ == parts@[0]@);
            }
        }
    }
    assert(texts(parts@).take(i as int) == texts(parts@));
    out
}

/// Joining in front of a list that is not empty.
proof fn lemma_joined_front(first: Seq<char>, rest: Seq<Seq<char>>, sep: Seq<char>)
    requires
        rest.len() > 0,
    ensures
        joined(seq![first] + rest, sep) == first + sep + joined(rest, sep),
    decreases rest.len(),
{
    let all = seq![first] + rest;
    if rest.len() == 1 {
        assert(all.drop_last() == seq![first]);
        assert(joined(seq![first], sep) == first);
        assert(all.last() == rest[0]);
    } else {
        assert(all.drop_last() == seq![first] + rest.drop_last());
        lemma_joined_front(first, rest.drop_last(), sep);
        assert(all.last() == rest.last());
        assert(joined(all, sep) =~= first + sep + joined(rest, sep));
    }
}

/// There is always a piece left to split off.
proof fn lemma_split_from_len(s: Seq<char>, pat: Seq<char>, start: int)
    ensures
        split_from(s, pat, start).len() >= 1,
    decreases s.len() - start,
{
    if let Some(k) = find_from(s, pat, start) {
        if start <= k && 0 < pat.len() && k + pat.len() <= s.len() {
            lemma_split_from_len(s, pat, k + pat.len());
        }
    }
}

/// Joining the pieces of a text with what they were split on gives the text
/// back.
pub proof fn lemma_joined_split(s: Seq<char>, pat: Seq<char>, start: int)
    requires
        0 < pat.len(),
        0 <= start <= s.len(),
    ensures
        joined(split_from(s, pat, start), pat) == s.skip(start),
    decreases s.len() - start,
{
    lemma_find_from(s, pat, start);
    match find_from(s, pat, start) {
        None => {},
        Some(k) => {
            let rest = split_from(s, pat, k + pat.len());
            lemma_joined_split(s, pat, k + pat.len());
            lemma_split_from_len(s, pat, k + pat.len());
            lemma_joined_front(s.subrange(start, k), rest, pat);
            assert(s.subrange(start, k) + s.subrange(k, k + pat.len()) + s.skip(k + pat.len())
                =~= s.skip(start));
        },
    }
}

/// No piece of a text holds the character it was split on.
pub proof fn lemma_pieces_lack(s: Seq<char>, c: char, start: int)
    requires
        0 <= start <= s.len(),
    ensures
        forall|i: int|
            0 <= i < split_from(s, seq![c], start).len() ==> !(#[trigger] split_from(
                s,
                seq![c],
                start,
            )[i]).contains(c),
    decreases s.len() - start,
{
    let pat = seq![c];
    let all = split_from(s, pat, start);
    lemma_find_from(s, pat, start);
    assert forall|j: int| 0 <= j < s.len() && s[j] == c implies #[trigger] occurs_at(s, pat, j) by {
        assert(s.subrange(j, j + 1) == pat);
    }
    match find_from(s, pat, start) {
        None => {
            let piece = s.skip(start);
            assert forall|i: int| 0 <= i < piece.len() implies piece[i] != c by {
                assert(!occurs_at(s, pat, start + i));
            }
        },
        Some(k) => {
            lemma_pieces_lack(s, c, k + 1);
            let piece = s.subrange(start, k);
            assert forall|i: int| 0 <= i < piece.len() implies piece[i] != c by {
                assert(!occurs_at(s, pat, start + i));
            }
            let rest = split_from(s, pat, k + 1);
            assert(all == seq![piece] + rest);
            assert forall|i: int| 0 <= i < all.len() implies !(#[trigger] all[i]).contains(c) by {
                if i > 0 {
                    assert(all[i] == rest[i - 1]);
                }
            }
        },
    }
}

/// Splitting what pieces were joined to gives the pieces back, where none of them
/// holds the character they were joined with.
pub proof fn lemma_split_joined(s: Seq<char>, c: char, start: int, parts: Seq<Seq<char>>)
    requires
        0 <= start <= s.len(),
        parts.len() > 0,
        s.skip(start) == joined(parts, seq![c]),
        forall|i: int| 0 <= i < parts.len() ==> !(#[trigger] parts[i]).contains(c),
    ensures
        split_from(s, seq![c], start) == parts,
    decreases parts.len(),
{
    let pat = seq![c];
    let first = parts[0];
    lemma_find_from(s, pat, start);
    if parts.len() == 1 {
        if let Some(k) = find_from(s, pat, start) {
            assert(s.subrange(k, k + 1)[0] == c);
            assert(first[k - start] == c);
        }
        assert(split_from(s, pat, start) =~= parts);
    } else {
        let rest = parts.skip(1);
        assert(parts == seq![first] + rest);
        lemma_joined_front(first, rest, pat);
        let end = start + first.len();
        let tail = s.skip(start);
        assert(tail == first + pat + joined(rest, pat));
        assert(tail[first.len() as int] == c);
        assert(s[end] == c);
        assert(s.subrange(end, end + 1) == pat);
        assert(occurs_at(s, pat, end));
        let k = find_from(s, pat, start)->0;
        if k < end {
            assert(s.subrange(k, k + 1)[0] == c);
            assert(tail[k - start] == first[k - start]);
        }
        assert(k == end);
        assert(s.subrange(start, end) =~= first) by {
            assert forall|i: int| 0 <= i < first.len() implies s[start + i] == first[i] by {
                assert(tail[i] == first[i]);
            }
        }
        assert(s.skip(end + 1) =~= joined(rest, pat)) by {
            assert(s.skip(end + 1) =~= tail.skip(end + 1 - start));
            assert(tail.skip(end + 1 - start) =~= joined(rest, pat));
        }
        assert forall|i: int| 0 <= i < rest.len() implies !(#[trigger] rest[i]).contains(c) by {
            assert(rest[i] == parts[i + 1]);
        }
        lemma_split_joined(s, c, end + 1, rest);
    }
}

/// Whether `c` has the Unicode property White_Space.
pub open spec fn white_space(c: char) -> bool {
    let n = c as u32;
    ||| 0x9 <= n <= 0xd
    ||| n == 0x20 || n == 0x85 || n == 0xa0 || n == 0x1680
    ||| 0x2000 <= n <= 0x200a
    ||| n == 0x2028 || n == 0x2029 || n == 0x202f || n == 0x205f || n == 0x3000
}

/// `s` without the white space it begins with.
pub open spec fn without_leading_space(s: Seq<char>) -> Seq<char>
    decreases s.len(),
{
    if s.len() > 0 && white_space(s[0]) {
        without_leading_space(s.skip(1))
    } else {
        s
    }
}

/// `s` without the white space it ends in.
pub open spec fn without_trailing_space(s: Seq<char>) -> Seq<char>
    decreases s.len(),
{
    if s.len() > 0 && white_space(s.last()) {
        without_trailing_space(s.drop_last())
    } else {
        s
    }
}

/// `s` without white space at either end.
pub open spec fn trimmed(s: Seq<char>) -> Seq<char> {
    without_trailing_space(without_leading_space(s))
}

/// Whether `c` has the Unicode property White_Space.
pub fn is_white_space(c: char) -> (r: bool)
    ensures
        r == white_space(c),
{
    let n: u32 = c as u32;
    (0x9 <= n && n <= 0xd) || n == 0x20 || n == 0x85 || n == 0xa0 || n == 0x1680 || (0x2000 <= n
        && n <= 0x200a) || n == 0x2028 || n == 0x2029 || n == 0x202f || n == 0x205f || n == 0x3000
}

/// `s` without white space at either end.
pub fn trim(s: &[char]) -> (r: Vec<char>)
    ensures
        r@ == trimmed(s@),
{
    let n: usize = s.len();
    let mut start: usize = 0;
    assert(s@.skip(0) == s@);
    while start < n && is_white_space(s[start])
        invariant
            start <= n == s@.len(),
            without_leading_space(s@) == without_leading_space(s@.skip(start as int)),
        decreases n - start,
    {
        assert(s@.skip(start as int).skip(1) == s@.skip(start + 1));
        start += 1;
    }
    let ghost inner = s@.skip(start as int);
    assert(without_leading_space(s@) == inner);
    let mut end: usize = n;
    assert(inner == s@.subrange(start as int, end as int));
    while end > start && is_white_space(s[end - 1])
        invariant
            start <= end <= s@.len(),
            without_trailing_space(inner) == without_trailing_space(
                s@.subrange(start as int, end as int),
            ),
        decreases end - start,
    {
        let ghost now = s@.subrange(start as int, end as int);
        assert(now.last() == s@[end - 1]);
        assert(now.drop_last() == s@.subrange(start as int, end - 1));
        end -= 1;
    }
    proof {
        let now = s@.subrange(start as int, end as int);
        if end > start {
            assert(now.last() == s@[end - 1]);
        }
    }
    copy_range(s, start, end)
}

/// `c` in upper case, where it is a lower-case ASCII letter.
pub open spec fn ascii_upper(c: char) -> char {
    if 'a' <= c <= 'z' {
        ((c as u8) - 32) as char
    } else {
        c
    }
}

/// `s` with its ASCII letters in upper case.
pub fn to_ascii_upper(s: &[char]) -> (r: Vec<char>)
    ensures
        r@ == s@.map_values(|c: char| ascii_upper(c)),
{
    let mut out: Vec<char> = Vec::new();
    let mut i: usize = 0;
    while i < s.len()
        invariant
            i <= s@.len(),
            out@ == s@.take(i as int).map_values(|c: char| ascii_upper(c)),
        decreases s@.len() - i,
    {
        let c: char = s[i];
        let upper: char = if 'a' <= c && c <= 'z' {
            ((c as u8) - 32) as char
        } else {
            c
        };
        out.push(upper);
        assert(out@ =~= s@.take(i + 1).map_values(|c: char| ascii_upper(c)));
        i += 1;
    }
    assert(s@.take(i as int) == s@);
    out
}

/// Whether every character of `s` is a decimal digit.
pub open spec fn all_digits(s: Seq<char>) -> bool {
    forall|i: int| 0 <= i < s.len() ==> '0' <= #[trigger] s[i] <= '9'
}

/// The number that a sequence of decimal digits spells.
pub open spec fn digits_value(s: Seq<char>) -> int
    decreases s.len(),
{
    if s.len() == 0 {
        0
    } else {
        digits_value(s.drop_last()) * 10 + (s.last() as int - '0' as int)
    }
}

/// The integer that `s` spells: decimal digits, at least one, behind an optional
/// sign.
pub open spec fn int_spelled(s: Seq<char>) -> Option<int> {
    let signed = s.len() > 0 && (s[0] == '+' || s[0] == '-');
    let magnitude = if signed {
        s.skip(1)
    } else {
        s
    };
    if magnitude.len() == 0 || !all_digits(magnitude) {
        None
    } else if signed && s[0] == '-' {
        Some(-digits_value(magnitude))
    } else {
        Some(digits_value(magnitude))
    }
}

/// The 64-bit integer that `s` spells.
pub open spec fn i64_spelled(s: Seq<char>) -> Option<i64> {
    match int_spelled(s) {
        Some(n) if i64::MIN <= n <= i64::MAX => Some(n as i64),
        _ => None,
    }
}

/// The text of the error with which `i64`'s `FromStr` refuses a text.
pub uninterp spec fn i64_refusal(text: Seq<char>) -> Seq<char>;

/// Calls `str::parse::<i64>`, which is `i64`'s `FromStr`. Claimed: it accepts
/// exactly the texts of decimal digits, at least one, behind an optional sign,
/// whose value fits, and returns that value; the text of the error with which it
/// refuses any other depends on the text alone.
#[verifier::external_body]
pub(crate) fn parse_i64(text: &str) -> (r: Result<i64, String>)
    ensures
        match r {
            Ok(n) => i64_spelled(text@) == Some(n),
            Err(reason) => i64_spelled(text@) is None && reason@ == i64_refusal(text@),
        },
{
    match text.parse::<i64>() {
        Ok(n) => Ok(n),
        Err(error) => Err(error.to_string()),
    }
}

/// One more piece behind a separator is one more piece of the split text.
pub proof fn lemma_split_one_more(s: Seq<char>, c: char, piece: Seq<char>)
    requires
        !piece.contains(c),
    ensures
        split_on(s + seq![c] + piece, seq![c]) == split_on(s, seq![c]).push(piece),
{
    let pat = seq![c];
    let whole = s + pat + piece;
    let parts = split_on(s, pat);
    let more = parts.push(piece);
    lemma_joined_split(s, pat, 0);
    lemma_split_from_len(s, pat, 0);
    lemma_pieces_lack(s, c, 0);
    assert(s.skip(0) == s);
    assert(more.drop_last() == parts);
    assert(joined(more, pat) == whole);
    assert(whole.skip(0) == whole);
    assert forall|i: int| 0 <= i < more.len() implies !(#[trigger] more[i]).contains(c) by {
        if i < parts.len() {
            assert(more[i] == parts[i]);
        }
    }
    lemma_split_joined(whole, c, 0, more);
}

/// A text without the separator is its only piece.
pub proof fn lemma_split_whole(s: Seq<char>, c: char)
    requires
        !s.contains(c),
    ensures
        split_on(s, seq![c]) == seq![s],
{
    let pat = seq![c];
    lemma_find_from(s, pat, 0);
    if let Some(k) = find_from(s, pat, 0) {
        assert(s.subrange(k, k + 1)[0] == s[k]);
    }
    assert(s.skip(0) == s);
}

/// Trimming a character takes away a run of it and no more: what is left does not
/// begin, or end, with it.
pub proof fn law_trimming_takes_a_run_of_one_character(s: Seq<char>, c: char)
    ensures
        trim_start(s, c).len() > 0 ==> trim_start(s, c)[0] != c,
        trim_end(s, c).len() > 0 ==> trim_end(s, c).last() != c,
        exists|n: int|
            0 <= n <= s.len() && trim_start(s, c) == #[trigger] s.skip(n) && forall|i: int|
                0 <= i < n ==> s[i] == c,
        exists|n: int|
            0 <= n <= s.len() && trim_end(s, c) == #[trigger] s.take(n) && forall|i: int|
                n <= i < s.len() ==> s[i] == c,
    decreases s.len(),
{
    if s.len() > 0 {
        law_trimming_takes_a_run_of_one_character(s.skip(1), c);
        law_trimming_takes_a_run_of_one_character(s.drop_last(), c);
    }
    if s.len() > 0 && s[0] == c {
        let rest = s.skip(1);
        let n = choose|n: int|
            0 <= n <= rest.len() && trim_start(rest, c) == #[trigger] rest.skip(n) && forall|
                i: int,
            |
                0 <= i < n ==> rest[i] == c;
        assert(s.skip(n + 1) =~= rest.skip(n));
        assert forall|i: int| 0 <= i < n + 1 implies s[i] == c by {
            if i > 0 {
                assert(rest[i - 1] == s[i]);
            }
        }
    } else {
        assert(s.skip(0) == s);
    }
    if s.len() > 0 && s.last() == c {
        let rest = s.drop_last();
        let n = choose|n: int|
            0 <= n <= rest.len() && trim_end(rest, c) == #[trigger] rest.take(n) && forall|
                i: int,
            |
                n <= i < rest.len() ==> rest[i] == c;
        assert(s.take(n) =~= rest.take(n));
        assert forall|i: int| n <= i < s.len() implies s[i] == c by {
            if i < s.len() - 1 {
                assert(rest[i] == s[i]);
            }
        }
    } else {
        assert(s.take(s.len() as int) == s);
    }
}

/// The digits of a number spell that number, so no two numbers have the same text.
pub proof fn law_a_number_is_told_by_its_text(n: int, m: int)
    ensures
        int_spelled(decimal(n)) == Some(n),
        decimal(n) == decimal(m) ==> n == m,
        decimal(n).len() > 0,
{
    lemma_spelled(n);
    lemma_spelled(m);
}

/// The text of a number is read as that number.
proof fn lemma_spelled(n: int)
    ensures
        int_spelled(decimal(n)) == Some(n),
        decimal(n).len() > 0,
{
    if n < 0 {
        lemma_digits_value((-n) as nat);
        assert(decimal(n).skip(1) == digits((-n) as nat));
    } else {
        lemma_digits_value(n as nat);
        assert('0' <= decimal(n)[0] <= '9');
    }
}

/// The digits of a number have that value.
proof fn lemma_digits_value(n: nat)
    ensures
        digits(n).len() > 0,
        all_digits(digits(n)),
        digits_value(digits(n)) == n,
    decreases n,
{
    let s = digits(n);
    if n >= 10 {
        lemma_digits_value(n / 10);
        assert(s.drop_last() == digits(n / 10));
        assert(s.last() as int == '0' as int + (n % 10));
    } else {
        assert(s.drop_last() == Seq::<char>::empty());
        assert(digits_value(s.drop_last()) == 0);
        assert(s.last() as int == '0' as int + n);
    }
}

/// A text is joined piece by piece with the separator between them, and an optional
/// text is itself or its default.
pub proof fn law_joining_puts_the_separator_between(
    parts: Seq<Seq<char>>,
    sep: Seq<char>,
    last: Seq<char>,
)
    ensures
        joined(Seq::empty(), sep).len() == 0,
        joined(seq![last], sep) == last,
        parts.len() > 0 ==> joined(parts.push(last), sep) == joined(parts, sep) + sep + last,
        text_or(Some(last), sep) == last,
        text_or(None, sep) == sep,
        bool_text(true) != bool_text(false),
        bool_text(true) == "true"@,
{
    assert(parts.push(last).drop_last() == parts);
    reveal_strlit("true");
    reveal_strlit("false");
    assert("true"@.len() != "false"@.len());
}

/// Trimming white space leaves a text that neither begins nor ends with it, and takes
/// away nothing else: what is left stands in the text with only white space around.
pub proof fn law_trimming_takes_the_white_space_around(s: Seq<char>)
    ensures
        trimmed(s).len() > 0 ==> !white_space(trimmed(s)[0]) && !white_space(trimmed(s).last()),
        exists|a: int, b: int|
            0 <= a <= b <= s.len() && trimmed(s) == #[trigger] s.subrange(a, b) && forall|i: int|
                (0 <= i < a || b <= i < s.len()) ==> white_space(s[i]),
{
    lemma_leading(s);
    let inner = without_leading_space(s);
    let a = choose|a: int|
        0 <= a <= s.len() && inner == #[trigger] s.skip(a) && forall|i: int|
            0 <= i < a ==> white_space(s[i]);
    lemma_trailing(inner);
    let n = choose|n: int|
        0 <= n <= inner.len() && without_trailing_space(inner) == #[trigger] inner.take(n)
            && forall|i: int| n <= i < inner.len() ==> white_space(inner[i]);
    let b = a + n;
    assert(inner.take(n) =~= s.subrange(a, b));
    assert forall|i: int| (0 <= i < a || b <= i < s.len()) implies white_space(s[i]) by {
        if i >= b {
            assert(inner[i - a] == s[i]);
        }
    }
    if trimmed(s).len() > 0 {
        assert(trimmed(s)[0] == inner[0]);
    }
}

/// What is left without leading white space.
proof fn lemma_leading(s: Seq<char>)
    ensures
        without_leading_space(s).len() > 0 ==> !white_space(without_leading_space(s)[0]),
        exists|a: int|
            0 <= a <= s.len() && without_leading_space(s) == #[trigger] s.skip(a) && forall|i: int|
                0 <= i < a ==> white_space(s[i]),
    decreases s.len(),
{
    if s.len() > 0 && white_space(s[0]) {
        let rest = s.skip(1);
        lemma_leading(rest);
        let a = choose|a: int|
            0 <= a <= rest.len() && without_leading_space(rest) == #[trigger] rest.skip(a)
                && forall|i: int| 0 <= i < a ==> white_space(rest[i]);
        assert(s.skip(a + 1) =~= rest.skip(a));
        assert forall|i: int| 0 <= i < a + 1 implies white_space(s[i]) by {
            if i > 0 {
                assert(rest[i - 1] == s[i]);
            }
        }
    } else {
        assert(s.skip(0) == s);
    }
}

/// What is left without trailing white space.
proof fn lemma_trailing(s: Seq<char>)
    ensures
        without_trailing_space(s).len() > 0 ==> !white_space(without_trailing_space(s).last()),
        exists|n: int|
            0 <= n <= s.len() && without_trailing_space(s) == #[trigger] s.take(n) && forall|
                i: int,
            |
                n <= i < s.len() ==> white_space(s[i]),
    decreases s.len(),
{
    if s.len() > 0 && white_space(s.last()) {
        let rest = s.drop_last();
        lemma_trailing(rest);
        let n = choose|n: int|
            0 <= n <= rest.len() && without_trailing_space(rest) == #[trigger] rest.take(n)
                && forall|i: int| n <= i < rest.len() ==> white_space(rest[i]);
        assert(s.take(n) =~= rest.take(n));
        assert forall|i: int| n <= i < s.len() implies white_space(s[i]) by {
            if i < s.len() - 1 {
                assert(rest[i] == s[i]);
            }
        }
    } else {
        assert(s.take(s.len() as int) == s);
    }
}

/// Every 64-bit number is read back from its text, and a sign before digits gives the
/// number they spell or its negative.
pub proof fn law_a_64_bit_number_is_read_back(n: i64, magnitude: nat)
    ensures
        i64_spelled(decimal(n as int)) == Some(n),
        int_spelled(seq!['+'] + digits(magnitude)) == Some(magnitude as int),
        int_spelled(seq!['-'] + digits(magnitude)) == Some(-(magnitude as int)),
        int_spelled(Seq::empty()) is None,
{
    lemma_spelled(n as int);
    lemma_digits_value(magnitude);
    assert((seq!['+'] + digits(magnitude)).skip(1) == digits(magnitude));
    assert((seq!['-'] + digits(magnitude)).skip(1) == digits(magnitude));
}

/// Upper-casing changes the small letters alone, each into its capital.
pub proof fn law_upper_casing_changes_small_letters(c: char)
    ensures
        'a' <= c <= 'z' ==> ascii_upper(c) as int == c as int - 'a' as int + 'A' as int,
        !('a' <= c <= 'z') ==> ascii_upper(c) == c,
        ascii_upper(ascii_upper(c)) == ascii_upper(c),
{
}

/// An optional text is there exactly where its string is, and a default stands only in
/// for one that is not.
pub proof fn law_an_optional_text_is_its_string(value: Option<String>, default: Seq<char>)
    ensures
        value is None <==> opt_text(value) is None,
        value matches Some(t) ==> opt_text(value) == Some(t@) && text_or(opt_text(value), default)
            == t@,
        value is None ==> text_or(opt_text(value), default) == default,
{
}

} // verus!
