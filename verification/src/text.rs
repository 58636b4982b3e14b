//! Text as sequences of characters: what the protocol's formats are read from and written to.
use vstd::prelude::*;
use vstd::string::*;

verus! {

/// `String::push` puts one character behind the text.
pub assume_specification[ String::push ](s: &mut String, c: char)
    ensures
        final(s)@ == old(s)@.push(c),
;

/// The characters of a text, one by one.
pub fn chars_of(s: &str) -> (v: Vec<char>)
    ensures
        v@ == s@,
{
    let mut v: Vec<char> = Vec::new();
    for c in it: s.chars()
        invariant
            it.seq() == s@,
            v@ == it.seq().take(it.index() as int),
    {
        v.push(c);
        assert(v@ == it.seq().take(it.index() + 1));
    }
    assert(v@ == s@);
    v
}

/// The text made of the characters from `from` up to `to`.
pub fn string_of(v: &Vec<char>, from: usize, to: usize) -> (s: String)
    requires
        from <= to <= v.len(),
    ensures
        s@ == v@.subrange(from as int, to as int),
{
    let mut s = String::new();
    let mut i: usize = from;
    assert(v@.subrange(from as int, from as int) == Seq::<char>::empty());
    while i < to
        invariant
            from <= i <= to <= v.len(),
            s@ == v@.subrange(from as int, i as int),
        decreases to - i,
    {
        s.push(v[i]);
        assert(v@.subrange(from as int, i + 1) == v@.subrange(from as int, i as int).push(v@[i as int]));
        i = i + 1;
    }
    s
}

/// Whether two texts are the same.
pub fn same(a: &str, b: &str) -> (r: bool)
    ensures
        r == (a@ == b@),
{
    a.to_owned() == b.to_owned()
}

/// White space as Unicode defines it.
pub open spec fn is_space(c: char) -> bool {
    let n = c as u32;
    ||| 9 <= n <= 13
    ||| n == 0x20
    ||| n == 0x85
    ||| n == 0xa0
    ||| n == 0x1680
    ||| 0x2000 <= n <= 0x200a
    ||| n == 0x2028
    ||| n == 0x2029
    ||| n == 0x202f
    ||| n == 0x205f
    ||| n == 0x3000
}

/// Whether a character is white space.
pub fn space(c: char) -> (r: bool)
    ensures
        r == is_space(c),
{
    let n: u32 = c as u32;
    (9 <= n && n <= 13) || n == 0x20 || n == 0x85 || n == 0xa0 || n == 0x1680 || (0x2000 <= n && n
        <= 0x200a) || n == 0x2028 || n == 0x2029 || n == 0x202f || n == 0x205f || n == 0x3000
}

/// A text without its leading white space.
pub open spec fn trimmed_start(s: Seq<char>) -> Seq<char>
    decreases s.len(),
{
    if s.len() > 0 && is_space(s[0]) {
        trimmed_start(s.drop_first())
    } else {
        s
    }
}

/// A text without its trailing white space.
pub open spec fn trimmed_end(s: Seq<char>) -> Seq<char>
    decreases s.len(),
{
    if s.len() > 0 && is_space(s.last()) {
        trimmed_end(s.drop_last())
    } else {
        s
    }
}

/// A text without its leading and trailing white space.
pub open spec fn trimmed(s: Seq<char>) -> Seq<char> {
    trimmed_end(trimmed_start(s))
}

/// A text without the run of `c` at its end.
pub open spec fn without_trailing(s: Seq<char>, c: char) -> Seq<char>
    decreases s.len(),
{
    if s.len() > 0 && s.last() == c {
        without_trailing(s.drop_last(), c)
    } else {
        s
    }
}

/// Drops the leading white space.
pub fn trim_start(s: &str) -> (r: &str)
    ensures
        r@ == trimmed_start(s@),
{
    let v: Vec<char> = chars_of(s);
    let n: usize = v.len();
    let mut i: usize = 0;
    assert(s@.skip(0) == s@);
    while i < n && space(v[i])
        invariant
            n == v.len(),
            v@ == s@,
            i <= n,
            trimmed_start(s@) == trimmed_start(s@.skip(i as int)),
        decreases n - i,
    {
        assert(s@.skip(i as int).drop_first() == s@.skip(i + 1));
        i = i + 1;
    }
    assert(s@.skip(i as int) == s@.subrange(i as int, n as int));
    s.substring_char(i, n)
}

/// Drops the trailing white space.
pub fn trim_end(s: &str) -> (r: &str)
    ensures
        r@ == trimmed_end(s@),
{
    let v: Vec<char> = chars_of(s);
    let mut n: usize = v.len();
    assert(s@.take(n as int) == s@);
    while n > 0 && space(v[n - 1])
        invariant
            v@ == s@,
            n <= v.len(),
            trimmed_end(s@) == trimmed_end(s@.take(n as int)),
        decreases n,
    {
        assert(s@.take(n as int).drop_last() == s@.take(n - 1));
        n = n - 1;
    }
    assert(s@.take(n as int) == s@.subrange(0, n as int));
    s.substring_char(0, n)
}

/// Drops white space at both ends.
pub fn trim(s: &str) -> (r: &str)
    ensures
        r@ == trimmed(s@),
{
    trim_end(trim_start(s))
}

/// Drops the run of `c` at the end.
pub fn trim_end_char(s: &str, c: char) -> (r: &str)
    ensures
        r@ == without_trailing(s@, c),
{
    let v: Vec<char> = chars_of(s);
    let mut n: usize = v.len();
    assert(s@.take(n as int) == s@);
    while n > 0 && v[n - 1] == c
        invariant
            v@ == s@,
            n <= v.len(),
            without_trailing(s@, c) == without_trailing(s@.take(n as int), c),
        decreases n,
    {
        assert(s@.take(n as int).drop_last() == s@.take(n - 1));
        n = n - 1;
    }
    assert(s@.take(n as int) == s@.subrange(0, n as int));
    s.substring_char(0, n)
}

/// `p` stands in `s` at position `i`.
pub open spec fn occurs_at(s: Seq<char>, p: Seq<char>, i: int) -> bool {
    0 <= i && i + p.len() <= s.len() && s.subrange(i, i + p.len()) == p
}

/// The first position from `i` on at which `p` stands in `s`.
pub open spec fn find_from(s: Seq<char>, p: Seq<char>, i: int) -> Option<int>
    decreases s.len() - i + 1,
{
    if i < 0 || i + p.len() > s.len() {
        None
    } else if occurs_at(s, p, i) {
        Some(i)
    } else {
        find_from(s, p, i + 1)
    }
}

/// `p` stands somewhere in `s`.
pub open spec fn holds(s: Seq<char>, p: Seq<char>) -> bool {
    find_from(s, p, 0) is Some
}

/// `s` starts with `p`.
pub open spec fn begins(s: Seq<char>, p: Seq<char>) -> bool {
    p.len() <= s.len() && s.take(p.len() as int) == p
}

/// `s` ends with `p`.
pub open spec fn ends(s: Seq<char>, p: Seq<char>) -> bool {
    p.len() <= s.len() && s.skip(s.len() - p.len()) == p
}

/// What stands behind the prefix `p`.
pub open spec fn after_prefix(s: Seq<char>, p: Seq<char>) -> Option<Seq<char>> {
    if begins(s, p) {
        Some(s.skip(p.len() as int))
    } else {
        None
    }
}

/// What stands before the suffix `p`.
pub open spec fn before_suffix(s: Seq<char>, p: Seq<char>) -> Option<Seq<char>> {
    if ends(s, p) {
        Some(s.take(s.len() - p.len()))
    } else {
        None
    }
}

/// The two sides of the first `p` in `s`.
pub open spec fn cut(s: Seq<char>, p: Seq<char>) -> Option<(Seq<char>, Seq<char>)> {
    match find_from(s, p, 0) {
        Some(i) => Some((s.take(i), s.skip(i + p.len()))),
        None => None,
    }
}

/// What a search finds lies where the pattern stands, and nowhere earlier.
pub proof fn lemma_find_from(s: Seq<char>, p: Seq<char>, i: int)
    requires
        0 <= i,
    ensures
        match find_from(s, p, i) {
            Some(k) => i <= k && occurs_at(s, p, k) && forall|j: int|
                i <= j < k ==> !occurs_at(s, p, j),
            None => forall|j: int| i <= j ==> !occurs_at(s, p, j),
        },
    decreases s.len() - i + 1,
{
    if i + p.len() <= s.len() && !occurs_at(s, p, i) {
        lemma_find_from(s, p, i + 1);
        match find_from(s, p, i) {
            Some(k) => {
                assert forall|j: int| i <= j < k implies !occurs_at(s, p, j) by {
                    if j > i {
                    }
                }
            },
            None => {
                assert forall|j: int| i <= j implies !occurs_at(s, p, j) by {
                    if j > i {
                    }
                }
            },
        }
    }
}

/// Where nothing earlier matches, the match at `k` is the one that is found.
pub proof fn lemma_found_at(s: Seq<char>, p: Seq<char>, i: int, k: int)
    requires
        0 <= i <= k,
        occurs_at(s, p, k),
        forall|j: int| i <= j < k ==> !occurs_at(s, p, j),
    ensures
        find_from(s, p, i) == Some(k),
    decreases k - i,
{
    if i < k {
        assert(!occurs_at(s, p, i));
        lemma_found_at(s, p, i + 1, k);
    }
}

/// A text in which the pattern stands nowhere gives nothing.
pub proof fn lemma_not_found(s: Seq<char>, p: Seq<char>, i: int)
    requires
        0 <= i,
        forall|j: int| i <= j ==> !occurs_at(s, p, j),
    ensures
        find_from(s, p, i) is None,
    decreases s.len() - i + 1,
{
    if i + p.len() <= s.len() {
        assert(!occurs_at(s, p, i));
        lemma_not_found(s, p, i + 1);
    }
}

/// Whether `p` stands in `v` at position `i`.
pub fn stands_at(v: &Vec<char>, p: &Vec<char>, i: usize) -> (r: bool)
    ensures
        r == occurs_at(v@, p@, i as int),
{
    if i > v.len() || p.len() > v.len() - i {
        return false;
    }
    let n: usize = p.len();
    let mut k: usize = 0;
    while k < n
        invariant
            n == p.len(),
            i + n <= v.len(),
            k <= n,
            forall|j: int| 0 <= j < k ==> v@[i + j] == p@[j],
        decreases n - k,
    {
        if v[i + k] != p[k] {
            assert(v@.subrange(i as int, i + p@.len())[k as int] != p@[k as int]);
            return false;
        }
        k = k + 1;
    }
    assert(v@.subrange(i as int, i + p@.len()) == p@);
    true
}

/// The first position from `from` on at which `p` stands in `v`.
pub fn position(v: &Vec<char>, p: &Vec<char>, from: usize) -> (r: Option<usize>)
    ensures
        match r {
            Some(k) => find_from(v@, p@, from as int) == Some(k as int),
            None => find_from(v@, p@, from as int) is None,
        },
{
    let mut i: usize = from;
    while i <= v.len() && p.len() <= v.len() - i
        invariant
            from <= i,
            find_from(v@, p@, from as int) == find_from(v@, p@, i as int),
        decreases v.len() + 1 - i,
    {
        if stands_at(v, p, i) {
            return Some(i);
        }
        if i == v.len() {
            proof {
                reveal_with_fuel(find_from, 2);
            }
            return None;
        }
        i = i + 1;
    }
    None
}

/// The position of the first `p` in `s`, counted in characters.
pub fn find(s: &str, p: &str) -> (r: Option<usize>)
    ensures
        match r {
            Some(k) => find_from(s@, p@, 0) == Some(k as int),
            None => find_from(s@, p@, 0) is None,
        },
{
    position(&chars_of(s), &chars_of(p), 0)
}

/// Whether `p` stands somewhere in `s`.
pub fn contains(s: &str, p: &str) -> (r: bool)
    ensures
        r == holds(s@, p@),
{
    find(s, p).is_some()
}

/// Whether `s` starts with `p`.
pub fn starts_with(s: &str, p: &str) -> (r: bool)
    ensures
        r == begins(s@, p@),
{
    proof {
        if p@.len() <= s@.len() {
            assert(s@.subrange(0, p@.len() as int) == s@.take(p@.len() as int));
        }
    }
    stands_at(&chars_of(s), &chars_of(p), 0)
}

/// Whether `s` ends with `p`.
pub fn ends_with(s: &str, p: &str) -> (r: bool)
    ensures
        r == ends(s@, p@),
{
    let v: Vec<char> = chars_of(s);
    let w: Vec<char> = chars_of(p);
    if w.len() > v.len() {
        return false;
    }
    assert(s@.subrange(s@.len() - p@.len(), s@.len() as int) == s@.skip(s@.len() - p@.len()));
    stands_at(&v, &w, v.len() - w.len())
}

/// What stands behind the prefix `p`.
pub fn strip_prefix<'a>(s: &'a str, p: &str) -> (r: Option<&'a str>)
    ensures
        match r {
            Some(t) => after_prefix(s@, p@) == Some(t@),
            None => after_prefix(s@, p@) is None,
        },
{
    if starts_with(s, p) {
        let from: usize = p.unicode_len();
        let to: usize = s.unicode_len();
        assert(s@.subrange(from as int, to as int) == s@.skip(from as int));
        Some(s.substring_char(from, to))
    } else {
        None
    }
}

/// What stands before the suffix `p`.
pub fn strip_suffix<'a>(s: &'a str, p: &str) -> (r: Option<&'a str>)
    ensures
        match r {
            Some(t) => before_suffix(s@, p@) == Some(t@),
            None => before_suffix(s@, p@) is None,
        },
{
    if ends_with(s, p) {
        let n: usize = s.unicode_len();
        let m: usize = p.unicode_len();
        assert(s@.subrange(0, n - m) == s@.take(n - m));
        Some(s.substring_char(0, n - m))
    } else {
        None
    }
}

/// The two sides of the first `p` in `s`.
pub fn split_once<'a>(s: &'a str, p: &str) -> (r: Option<(&'a str, &'a str)>)
    ensures
        match r {
            Some((a, b)) => cut(s@, p@) == Some((a@, b@)),
            None => cut(s@, p@) is None,
        },
{
    match find(s, p) {
        Some(k) => {
            proof {
                lemma_find_from(s@, p@, 0);
            }
            let n: usize = s.unicode_len();
            let m: usize = p.unicode_len();
            assert(s@.subrange(0, k as int) == s@.take(k as int));
            assert(s@.subrange(k + m, n as int) == s@.skip(k + m));
            Some((s.substring_char(0, k), s.substring_char(k + m, n)))
        },
        None => None,
    }
}

/// The contents of a list of texts.
pub open spec fn texts(v: Seq<String>) -> Seq<Seq<char>> {
    v.map_values(|t: String| t@)
}

/// The parts of `s` between the occurrences of the separator `p`.
pub open spec fn pieces(s: Seq<char>, p: Seq<char>) -> Seq<Seq<char>>
    decreases s.len(),
{
    match find_from(s, p, 0) {
        Some(i) if p.len() > 0 => {
            proof {
                lemma_find_from(s, p, 0);
            }
            seq![s.take(i)] + pieces(s.skip(i + p.len()), p)
        },
        _ => seq![s],
    }
}

/// A line without the carriage return before its line break.
pub open spec fn without_return(s: Seq<char>) -> Seq<char> {
    if s.len() > 0 && s.last() == '\r' {
        s.drop_last()
    } else {
        s
    }
}

/// The lines of a text; a line break ends a line and is not part of it.
pub open spec fn lines_of(s: Seq<char>) -> Seq<Seq<char>>
    decreases s.len(),
{
    if s.len() == 0 {
        Seq::empty()
    } else {
        match find_from(s, seq!['\n'], 0) {
            Some(i) => {
                proof {
                    lemma_find_from(s, seq!['\n'], 0);
                }
                seq![without_return(s.take(i))] + lines_of(s.skip(i + 1))
            },
            None => seq![s],
        }
    }
}

/// How many characters of `s` stand before its first white space.
pub open spec fn word_length(s: Seq<char>) -> nat
    decreases s.len(),
{
    if s.len() == 0 || is_space(s[0]) {
        0
    } else {
        1 + word_length(s.drop_first())
    }
}

/// Dropping white space never makes a text longer.
pub proof fn lemma_trim_start_len(s: Seq<char>)
    ensures
        trimmed_start(s).len() <= s.len(),
        trimmed_start(s).len() > 0 ==> !is_space(trimmed_start(s)[0]),
    decreases s.len(),
{
    if s.len() > 0 && is_space(s[0]) {
        lemma_trim_start_len(s.drop_first());
    }
}

/// A word is no longer than the text that it starts.
pub proof fn lemma_word_length(s: Seq<char>)
    ensures
        word_length(s) <= s.len(),
        s.len() > 0 && !is_space(s[0]) ==> word_length(s) > 0,
    decreases s.len(),
{
    if s.len() > 0 && !is_space(s[0]) {
        lemma_word_length(s.drop_first());
    }
}

/// The runs of `s` that hold no white space.
pub open spec fn words_of(s: Seq<char>) -> Seq<Seq<char>>
    decreases s.len(),
{
    let t = trimmed_start(s);
    if t.len() == 0 {
        Seq::empty()
    } else {
        proof {
            lemma_trim_start_len(s);
            lemma_word_length(t);
        }
        seq![t.take(word_length(t) as int)] + words_of(t.skip(word_length(t) as int))
    }
}

/// The parts with the separator between each two.
pub open spec fn joined(parts: Seq<Seq<char>>, sep: Seq<char>) -> Seq<char>
    decreases parts.len(),
{
    if parts.len() == 0 {
        Seq::empty()
    } else if parts.len() == 1 {
        parts[0]
    } else {
        joined(parts.drop_last(), sep) + sep + parts.last()
    }
}

/// Appending to a list appends to its contents.
pub proof fn lemma_texts_push(v: Seq<String>, t: String)
    ensures
        texts(v.push(t)) == texts(v).push(t@),
{
    assert(texts(v.push(t)) =~= texts(v).push(t@));
}

/// Splits `s` at each occurrence of the separator `p`.
pub fn split(s: &str, p: &str) -> (r: Vec<String>)
    ensures
        texts(r@) == pieces(s@, p@),
{
    let v: Vec<char> = chars_of(s);
    let w: Vec<char> = chars_of(p);
    let n: usize = v.len();
    let mut r: Vec<String> = Vec::new();
    let mut i: usize = 0;
    assert(s@.skip(0) == s@);
    assert(texts(r@) + pieces(s@, p@) == pieces(s@, p@));
    if w.len() == 0 {
        r.push(string_of(&v, 0, n));
        assert(v@.subrange(0, n as int) == s@);
        assert(texts(r@) == seq![s@]);
        return r;
    }
    loop
        invariant
            n == v.len(),
            v@ == s@,
            w@ == p@,
            w.len() > 0,
            i <= n,
            texts(r@) + pieces(s@.skip(i as int), p@) == pieces(s@, p@),
        decreases n - i,
    {
        let ghost rest = s@.skip(i as int);
        let ghost before = r@;
        match position(&v, &w, i) {
            Some(k) => {
                proof {
                    lemma_find_from(v@, w@, i as int);
                    lemma_find_in_rest(s@, p@, i as int);
                }
                r.push(string_of(&v, i, k));
                proof {
                    lemma_texts_push(before, r@.last());
                    assert(rest.take(k - i) == s@.subrange(i as int, k as int));
                    assert(rest.skip(k - i + p@.len()) == s@.skip(k + p@.len()));
                    assert(texts(r@) + pieces(s@.skip(k + p@.len()), p@) == texts(before) + (seq![
                        s@.subrange(i as int, k as int),
                    ] + pieces(s@.skip(k + p@.len()), p@)));
                }
                i = k + w.len();
            },
            None => {
                proof {
                    lemma_find_in_rest(s@, p@, i as int);
                }
                r.push(string_of(&v, i, n));
                proof {
                    lemma_texts_push(before, r@.last());
                    assert(rest == s@.subrange(i as int, n as int));
                    assert(texts(r@) == texts(before) + seq![rest]);
                }
                return r;
            },
        }
    }
}

/// Searching from `i` on finds what searching the rest from `i` finds.
pub proof fn lemma_find_in_rest(s: Seq<char>, p: Seq<char>, i: int)
    requires
        0 <= i <= s.len(),
    ensures
        match find_from(s, p, i) {
            Some(k) => find_from(s.skip(i), p, 0) == Some(k - i),
            None => find_from(s.skip(i), p, 0) is None,
        },
{
    let t = s.skip(i);
    lemma_find_from(s, p, i);
    assert forall|j: int| 0 <= j implies occurs_at(t, p, j) == occurs_at(s, p, i + j) by {
        if j + p.len() <= t.len() {
            assert(t.subrange(j, j + p.len()) == s.subrange(i + j, i + j + p.len()));
        }
    }
    match find_from(s, p, i) {
        Some(k) => {
            lemma_found_at(t, p, 0, k - i);
        },
        None => {
            assert forall|j: int| 0 <= j implies !occurs_at(t, p, j) by {
                assert(!occurs_at(s, p, i + j));
            }
            lemma_not_found(t, p, 0);
        },
    }
}

/// The lines of a text.
pub fn lines(s: &str) -> (r: Vec<String>)
    ensures
        texts(r@) == lines_of(s@),
{
    let v: Vec<char> = chars_of(s);
    let w: Vec<char> = vec!['\n'];
    assert(w@ == seq!['\n']);
    let n: usize = v.len();
    let mut r: Vec<String> = Vec::new();
    let mut i: usize = 0;
    assert(s@.skip(0) == s@);
    assert(texts(r@) + lines_of(s@) == lines_of(s@));
    while i < n
        invariant
            n == v.len(),
            v@ == s@,
            w@ == seq!['\n'],
            i <= n,
            texts(r@) + lines_of(s@.skip(i as int)) == lines_of(s@),
        decreases n - i,
    {
        let ghost rest = s@.skip(i as int);
        let ghost before = r@;
        proof {
            lemma_find_from(v@, w@, i as int);
            lemma_find_in_rest(s@, w@, i as int);
        }
        match position(&v, &w, i) {
            Some(k) => {
                assert(rest.take(k - i) == s@.subrange(i as int, k as int));
                if k > i && v[k - 1] == '\r' {
                    r.push(string_of(&v, i, k - 1));
                    assert(s@.subrange(i as int, k as int).drop_last() == s@.subrange(
                        i as int,
                        k - 1,
                    ));
                } else {
                    r.push(string_of(&v, i, k));
                }
                proof {
                    lemma_texts_push(before, r@.last());
                    assert(r@.last()@ == without_return(rest.take(k - i)));
                    assert(rest.skip(k - i + 1) == s@.skip(k + 1));
                    assert(texts(r@) + lines_of(s@.skip(k + 1)) == texts(before) + (seq![
                        r@.last()@,
                    ] + lines_of(s@.skip(k + 1))));
                }
                i = k + 1;
            },
            None => {
                r.push(string_of(&v, i, n));
                proof {
                    lemma_texts_push(before, r@.last());
                    assert(rest == s@.subrange(i as int, n as int));
                    assert(texts(r@) == texts(before) + seq![rest]);
                }
                return r;
            },
        }
    }
    assert(s@.skip(i as int).len() == 0);
    assert(texts(r@) + lines_of(s@.skip(i as int)) == texts(r@));
    r
}

/// The words of a text.
pub fn split_whitespace(s: &str) -> (r: Vec<String>)
    ensures
        texts(r@) == words_of(s@),
{
    let v: Vec<char> = chars_of(s);
    let n: usize = v.len();
    let mut r: Vec<String> = Vec::new();
    let mut i: usize = 0;
    assert(s@.skip(0) == s@);
    assert(texts(r@) + words_of(s@) == words_of(s@));
    while i < n
        invariant
            n == v.len(),
            v@ == s@,
            i <= n,
            texts(r@) + words_of(s@.skip(i as int)) == words_of(s@),
        decreases n - i,
    {
        let ghost rest = s@.skip(i as int);
        let ghost before = r@;
        let mut a: usize = i;
        while a < n && space(v[a])
            invariant
                n == v.len(),
                v@ == s@,
                i <= a <= n,
                trimmed_start(s@.skip(i as int)) == trimmed_start(s@.skip(a as int)),
            decreases n - a,
        {
            assert(s@.skip(a as int).drop_first() == s@.skip(a + 1));
            a = a + 1;
        }
        let ghost t = s@.skip(a as int);
        assert(trimmed_start(rest) == t);
        if a == n {
            assert(t.len() == 0);
            assert(texts(r@) + words_of(rest) == texts(r@));
            return r;
        }
        let mut b: usize = a;
        assert(s@.skip(b as int) == t);
        while b < n && !space(v[b])
            invariant
                n == v.len(),
                v@ == s@,
                a <= b <= n,
                word_length(s@.skip(a as int)) == (b - a) + word_length(s@.skip(b as int)),
            decreases n - b,
        {
            assert(s@.skip(b as int).drop_first() == s@.skip(b + 1));
            b = b + 1;
        }
        assert(word_length(t) == b - a);
        r.push(string_of(&v, a, b));
        proof {
            lemma_word_length(t);
            lemma_texts_push(before, r@.last());
            assert(t.take(b - a) == s@.subrange(a as int, b as int));
            assert(t.skip(b - a) == s@.skip(b as int));
            assert(texts(r@) + words_of(s@.skip(b as int)) == texts(before) + (seq![
                s@.subrange(a as int, b as int),
            ] + words_of(s@.skip(b as int))));
        }
        i = b;
    }
    assert(s@.skip(i as int).len() == 0);
    assert(texts(r@) + words_of(s@.skip(i as int)) == texts(r@));
    r
}

/// The parts with the separator between each two.
pub fn join(parts: &Vec<String>, sep: &str) -> (r: String)
    ensures
        r@ == joined(texts(parts@), sep@),
{
    let mut r = String::new();
    let mut i: usize = 0;
    assert(texts(parts@).take(0).len() == 0);
    while i < parts.len()
        invariant
            i <= parts.len(),
            r@ == joined(texts(parts@).take(i as int), sep@),
        decreases parts.len() - i,
    {
        if i > 0 {
            r.append(sep);
        }
        r.append(parts[i].as_str());
        proof {
            let next = texts(parts@).take(i + 1);
            assert(next.drop_last() == texts(parts@).take(i as int));
            assert(next.last() == parts@[i as int]@);
            if i == 0 {
                assert(r@ == parts@[0]@);
            }
        }
        i = i + 1;
    }
    assert(texts(parts@).take(i as int) == texts(parts@));
    r
}

/// A decimal digit.
pub open spec fn is_digit(c: char) -> bool {
    '0' <= c <= '9'
}

/// The digit for a number below ten.
pub open spec fn digit(n: nat) -> char {
    (48 + n) as char
}

/// A number in decimal digits, without leading zeros.
pub open spec fn decimal(n: nat) -> Seq<char>
    decreases n,
{
    if n < 10 {
        seq![digit(n)]
    } else {
        decimal(n / 10).push(digit(n % 10))
    }
}

/// The number that a run of decimal digits stands for.
pub open spec fn digits_value(s: Seq<char>) -> nat
    decreases s.len(),
{
    if s.len() == 0 {
        0
    } else {
        digits_value(s.drop_last()) * 10 + (s.last() as u32 - 48) as nat
    }
}

/// Nothing but decimal digits, and at least one.
pub open spec fn all_digits(s: Seq<char>) -> bool {
    s.len() > 0 && forall|i: int| 0 <= i < s.len() ==> is_digit(#[trigger] s[i])
}

/// A number as the integer types of the language read it, up to `max`: an optional plus sign
/// and decimal digits.
pub open spec fn read_number(s: Seq<char>, max: nat) -> Option<nat> {
    let d = if s.len() > 0 && s[0] == '+' {
        s.drop_first()
    } else {
        s
    };
    if all_digits(d) && digits_value(d) <= max {
        Some(digits_value(d))
    } else {
        None
    }
}

/// A longer run of digits stands for no smaller number.
pub proof fn lemma_digits_grow(s: Seq<char>, i: int)
    requires
        0 <= i <= s.len(),
        all_digits(s),
    ensures
        digits_value(s.take(i)) <= digits_value(s),
    decreases s.len() - i,
{
    if i < s.len() {
        lemma_digits_grow(s, i + 1);
        assert(s.take(i + 1).drop_last() == s.take(i));
        assert(is_digit(s[i]));
    } else {
        assert(s.take(i) == s);
    }
}

/// Reading a written number gives the number back.
pub proof fn lemma_decimal(n: nat)
    ensures
        all_digits(decimal(n)),
        digits_value(decimal(n)) == n,
        decimal(n)[0] != '+',
    decreases n,
{
    if n < 10 {
        assert(decimal(n).drop_last() == Seq::<char>::empty());
        assert(digits_value(decimal(n).drop_last()) == 0);
    } else {
        lemma_decimal(n / 10);
        let d = decimal(n / 10);
        assert(decimal(n).drop_last() == d);
        assert forall|i: int| 0 <= i < decimal(n).len() implies is_digit(#[trigger] decimal(n)[i]) by {
            if i < d.len() {
                assert(decimal(n)[i] == d[i]);
            }
        }
        assert(decimal(n)[0] == d[0]);
    }
}

/// Writing a number and reading it back gives the number.
pub proof fn lemma_number_read_back(n: nat, max: nat)
    requires
        n <= max,
    ensures
        read_number(decimal(n), max) == Some(n),
{
    lemma_decimal(n);
}

/// A number in decimal digits.
pub fn number(n: u64) -> (r: String)
    ensures
        r@ == decimal(n as nat),
    decreases n,
{
    let d: char = (48u8 + (n % 10) as u8) as char;
    if n < 10 {
        let mut r = String::new();
        r.push(d);
        assert(r@ == decimal(n as nat));
        r
    } else {
        let mut r = number(n / 10);
        r.push(d);
        r
    }
}

/// Reads a number up to `max`.
pub fn parse_number(s: &str, max: u64) -> (r: Option<u64>)
    ensures
        match r {
            Some(n) => read_number(s@, max as nat) == Some(n as nat),
            None => read_number(s@, max as nat) is None,
        },
{
    let v: Vec<char> = chars_of(s);
    let start: usize = if v.len() > 0 && v[0] == '+' {
        1
    } else {
        0
    };
    let ghost d = if s@.len() > 0 && s@[0] == '+' {
        s@.drop_first()
    } else {
        s@
    };
    if start == v.len() {
        return None;
    }
    let mut total: u64 = 0;
    let mut i: usize = start;
    assert(d.take(0).len() == 0);
    while i < v.len()
        invariant
            start <= i <= v.len(),
            d.len() == v.len() - start,
            d.len() > 0,
            forall|j: int| 0 <= j < d.len() ==> d[j] == v@[start + j],
            forall|j: int| 0 <= j < i - start ==> is_digit(d[j]),
            total == digits_value(d.take(i - start)),
            total <= max,
            v@ == s@,
            start == 0 || start == 1,
            d == if s@.len() > 0 && s@[0] == '+' {
                s@.drop_first()
            } else {
                s@
            },
        decreases v.len() - i,
    {
        let c: char = v[i];
        assert(d[i - start] == c);
        if c < '0' || c > '9' {
            assert(!is_digit(d[i - start]));
            return None;
        }
        let value: u64 = (c as u32 - 48) as u64;
        assert(d.take(i - start + 1).drop_last() == d.take(i - start));
        assert(digits_value(d.take(i - start + 1)) == digits_value(d.take(i - start)) * 10 + value);
        if total > max / 10 || value > max - total * 10 {
            proof {
                if all_digits(d) {
                    lemma_digits_grow(d, i - start + 1);
                }
            }
            return None;
        }
        total = total * 10 + value;
        i = i + 1;
    }
    assert(d.take(d.len() as int) == d);
    Some(total)
}

/// A trimmed text starts and ends with something that is no white space.
pub proof fn lemma_trimmed_ends(s: Seq<char>)
    ensures
        trimmed(s).len() > 0 ==> !is_space(trimmed(s)[0]) && !is_space(trimmed(s).last()),
{
    lemma_trim_start_len(s);
    lemma_trim_end_len(trimmed_start(s));
}

/// Dropping white space at the end keeps the start.
pub proof fn lemma_trim_end_len(s: Seq<char>)
    ensures
        trimmed_end(s).len() <= s.len(),
        trimmed_end(s) == s.take(trimmed_end(s).len() as int),
        trimmed_end(s).len() > 0 ==> !is_space(trimmed_end(s).last()),
    decreases s.len(),
{
    if s.len() > 0 && is_space(s.last()) {
        lemma_trim_end_len(s.drop_last());
        let t = trimmed_end(s);
        assert(s.drop_last().take(t.len() as int) == s.take(t.len() as int));
    } else {
        assert(s.take(s.len() as int) == s);
    }
}

/// A text without white space at its ends is trimmed already.
pub proof fn lemma_trimmed_already(s: Seq<char>)
    requires
        s.len() > 0 ==> !is_space(s[0]) && !is_space(s.last()),
    ensures
        trimmed(s) == s,
        trimmed_start(s) == s,
        trimmed_end(s) == s,
{
}

/// One blank before a trimmed text goes away.
pub proof fn lemma_trim_blank(s: Seq<char>)
    requires
        trimmed(s) == s,
    ensures
        trimmed(seq![' '] + s) == s,
{
    lemma_trimmed_ends(s);
    let t = seq![' '] + s;
    assert(t.drop_first() == s);
    assert(trimmed_start(t) == trimmed_start(s));
    lemma_trimmed_already(s);
}

/// A text that is empty or ends with a line break splits into its lines apart from what follows.
pub proof fn lemma_lines_apart(a: Seq<char>, b: Seq<char>)
    requires
        a.len() == 0 || a.last() == '\n',
    ensures
        lines_of(a + b) == lines_of(a) + lines_of(b),
    decreases a.len(),
{
    let nl = seq!['\n'];
    if a.len() == 0 {
        assert(a + b == b);
        assert(lines_of(a) + lines_of(b) == lines_of(b));
    } else {
        lemma_find_from(a, nl, 0);
        assert(a.subrange(a.len() - 1, a.len() as int) == nl);
        assert(occurs_at(a, nl, a.len() - 1));
        let i = find_from(a, nl, 0)->Some_0;
        let s = a + b;
        assert(s.subrange(i, i + 1) == a.subrange(i, i + 1));
        assert forall|j: int| 0 <= j < i implies !occurs_at(s, nl, j) by {
            assert(s.subrange(j, j + 1) == a.subrange(j, j + 1));
            assert(!occurs_at(a, nl, j));
        }
        lemma_found_at(s, nl, 0, i);
        assert(s.take(i) == a.take(i));
        assert(s.skip(i + 1) == a.skip(i + 1) + b);
        if a.skip(i + 1).len() > 0 {
            assert(a.skip(i + 1).last() == a.last());
        }
        lemma_lines_apart(a.skip(i + 1), b);
        let head = seq![without_return(a.take(i))];
        assert(head + (lines_of(a.skip(i + 1)) + lines_of(b)) == (head + lines_of(a.skip(i + 1)))
            + lines_of(b));
    }
}

/// A single line.
pub proof fn lemma_one_line(line: Seq<char>)
    requires
        forall|i: int| 0 <= i < line.len() ==> line[i] != '\n',
    ensures
        lines_of(line.push('\n')) == seq![without_return(line)],
{
    let nl = seq!['\n'];
    let s = line.push('\n');
    let n = line.len() as int;
    assert(s.subrange(n, n + 1) == nl);
    assert forall|j: int| 0 <= j < n implies !occurs_at(s, nl, j) by {
        assert(s.subrange(j, j + 1)[0] == line[j]);
    }
    lemma_found_at(s, nl, 0, n);
    assert(s.take(n) == line);
    assert(s.skip(n + 1).len() == 0);
    assert(lines_of(s) == seq![without_return(line)] + lines_of(s.skip(n + 1)));
    assert(lines_of(s) == seq![without_return(line)]);
}

/// A text that may be missing, copied.
pub fn copy(s: &Option<String>) -> (r: Option<String>)
    ensures
        r == *s,
{
    match s {
        Some(t) => Some(t.clone()),
        None => None,
    }
}

/// A letter of the Latin alphabet in lower case; any other character as it is.
pub open spec fn lower_char(c: char) -> char {
    if 'A' <= c <= 'Z' {
        (c as u32 + 32) as char
    } else {
        c
    }
}

/// A text with its Latin letters in lower case.
pub open spec fn lower(s: Seq<char>) -> Seq<char> {
    s.map_values(|c: char| lower_char(c))
}

/// A text with its Latin letters in lower case.
pub fn to_ascii_lowercase(s: &str) -> (r: String)
    ensures
        r@ == lower(s@),
{
    let v: Vec<char> = chars_of(s);
    let mut r = String::new();
    let mut i: usize = 0;
    while i < v.len()
        invariant
            i <= v.len(),
            v@ == s@,
            r@ == lower(s@).take(i as int),
        decreases v.len() - i,
    {
        let c: char = if 'A' <= v[i] && v[i] <= 'Z' {
            (v[i] as u8 + 32) as char
        } else {
            v[i]
        };
        r.push(c);
        assert(c == lower_char(s@[i as int]));
        assert(lower(s@).take(i + 1) == lower(s@).take(i as int).push(lower(s@)[i as int]));
        i = i + 1;
    }
    assert(lower(s@).take(i as int) == lower(s@));
    r
}

/// A text without the suffixes `p` at its end.
pub open spec fn without_suffixes(s: Seq<char>, p: Seq<char>) -> Seq<char>
    decreases s.len(),
{
    if p.len() > 0 && ends(s, p) {
        without_suffixes(s.take(s.len() - p.len()), p)
    } else {
        s
    }
}

/// Drops each suffix `p` at the end.
pub fn trim_end_str<'a>(s: &'a str, p: &str) -> (r: &'a str)
    ensures
        r@ == without_suffixes(s@, p@),
{
    if p.unicode_len() == 0 {
        return s;
    }
    let mut t: &'a str = s;
    while ends_with(t, p)
        invariant
            p@.len() > 0,
            without_suffixes(s@, p@) == without_suffixes(t@, p@),
        decreases t@.len(),
    {
        let n: usize = t.unicode_len();
        let m: usize = p.unicode_len();
        assert(t@.subrange(0, n - m) == t@.take(n - m));
        t = t.substring_char(0, n - m);
    }
    t
}

/// What stands behind the last `c`; the whole text where there is none.
pub open spec fn after_last(s: Seq<char>, c: char) -> Seq<char>
    decreases s.len(),
{
    if s.len() == 0 {
        s
    } else if s.last() == c {
        Seq::empty()
    } else {
        after_last(s.drop_last(), c).push(s.last())
    }
}

/// What stands behind the last `c`; the whole text where there is none.
pub fn last_part(s: &str, c: char) -> (r: String)
    ensures
        r@ == after_last(s@, c),
{
    let v: Vec<char> = chars_of(s);
    let n: usize = v.len();
    let mut i: usize = n;
    assert(v@.take(n as int) == s@);
    assert(v@.subrange(n as int, n as int) == Seq::<char>::empty());
    assert(after_last(s@, c) == after_last(v@.take(n as int), c) + v@.subrange(n as int, n as int));
    while i > 0 && v[i - 1] != c
        invariant
            i <= n,
            n == v.len(),
            v@ == s@,
            after_last(s@, c) == after_last(v@.take(i as int), c) + v@.subrange(
                i as int,
                n as int,
            ),
        decreases i,
    {
        assert(v@.take(i as int).drop_last() == v@.take(i - 1));
        assert(after_last(v@.take(i as int), c) == after_last(v@.take(i - 1), c).push(v@[i - 1]));
        assert(after_last(v@.take(i - 1), c).push(v@[i - 1]) + v@.subrange(i as int, n as int)
            == after_last(v@.take(i - 1), c) + v@.subrange(i - 1, n as int));
        i = i - 1;
    }
    assert(after_last(v@.take(i as int), c) == Seq::<char>::empty());
    assert(after_last(s@, c) == v@.subrange(i as int, n as int));
    string_of(&v, i, n)
}

/// What is wrong with a run of digits from `i` on: a character that is no digit, or a digit that
/// takes the number above `max`, whichever comes first.
pub open spec fn digits_fault(d: Seq<char>, max: nat, i: int) -> Seq<char>
    decreases d.len() - i,
{
    if i >= d.len() {
        Seq::empty()
    } else if !is_digit(d[i]) {
        "invalid digit found in string"@
    } else if digits_value(d.take(i + 1)) > max {
        "number too large to fit in target type"@
    } else {
        digits_fault(d, max, i + 1)
    }
}

/// What is wrong with a text that does not read as a number up to `max`.
pub open spec fn number_fault(s: Seq<char>, max: nat) -> Seq<char> {
    let d = if s.len() > 0 && s[0] == '+' {
        s.drop_first()
    } else {
        s
    };
    if s.len() == 0 {
        "cannot parse integer from empty string"@
    } else if d.len() == 0 {
        "invalid digit found in string"@
    } else {
        digits_fault(d, max, 0)
    }
}

/// Says what is wrong with a text that does not read as a number up to `max`.
pub fn explain_number(s: &str, max: u64) -> (r: String)
    ensures
        r@ == number_fault(s@, max as nat),
{
    let v: Vec<char> = chars_of(s);
    if v.len() == 0 {
        return "cannot parse integer from empty string".to_owned();
    }
    let start: usize = if v[0] == '+' {
        1
    } else {
        0
    };
    let ghost d = if s@[0] == '+' {
        s@.drop_first()
    } else {
        s@
    };
    if start == v.len() {
        return "invalid digit found in string".to_owned();
    }
    let mut total: u64 = 0;
    let mut i: usize = start;
    assert(d.take(0).len() == 0);
    while i < v.len()
        invariant
            start <= i <= v.len(),
            start <= 1,
            d.len() == v.len() - start,
            forall|j: int| 0 <= j < d.len() ==> d[j] == v@[start + j],
            total == digits_value(d.take(i - start)),
            total <= max,
            number_fault(s@, max as nat) == digits_fault(d, max as nat, i - start),
        decreases v.len() - i,
    {
        let c: char = v[i];
        assert(d[i - start] == c);
        if c < '0' || c > '9' {
            return "invalid digit found in string".to_owned();
        }
        let value: u64 = (c as u32 - 48) as u64;
        assert(d.take(i - start + 1).drop_last() =~= d.take(i - start));
        assert(digits_value(d.take(i - start + 1)) == digits_value(d.take(i - start)) * 10 + value);
        if total > max / 10 || value > max - total * 10 {
            return "number too large to fit in target type".to_owned();
        }
        total = total * 10 + value;
        i = i + 1;
    }
    let r = String::new();
    assert(r@ =~= Seq::<char>::empty());
    r
}

/// Whether a text is in a list.
pub fn is_listed(list: &Vec<String>, s: &str) -> (r: bool)
    ensures
        r == texts(list@).contains(s@),
{
    let ghost all = texts(list@);
    let mut i: usize = 0;
    while i < list.len()
        invariant
            i <= list.len(),
            all == texts(list@),
            forall|j: int| 0 <= j < i ==> #[trigger] all[j] != s@,
        decreases list.len() - i,
    {
        assert(all[i as int] == list@[i as int]@);
        if same(list[i].as_str(), s) {
            return true;
        }
        i = i + 1;
    }
    false
}

/// The bytes that a text takes.
pub open spec fn size(s: Seq<char>) -> nat {
    vstd::utf8::encode_utf8(s).len()
}

/// Copies of texts.
pub fn owned(args: &[&str]) -> (r: Vec<String>)
    ensures
        texts(r@) == args@.map_values(|a: &str| a@),
{
    let mut r: Vec<String> = Vec::new();
    let mut i: usize = 0;
    let ghost all = args@.map_values(|a: &str| a@);
    while i < args.len()
        invariant
            i <= args.len(),
            all == args@.map_values(|a: &str| a@),
            texts(r@) == all.take(i as int),
        decreases args.len() - i,
    {
        let ghost before = r@;
        r.push(args[i].to_owned());
        proof {
            lemma_texts_push(before, r@.last());
            assert(all.take(i + 1) == all.take(i as int).push(all[i as int]));
        }
        i = i + 1;
    }
    assert(all.take(i as int) == all);
    r
}

/// A number behind a text.
pub fn numbered(start: &str, number: u64) -> (r: String)
    ensures
        r@ == start@ + decimal(number as nat),
{
    let mut r = start.to_owned();
    r.append(self::number(number).as_str());
    r
}

/// A number between two texts.
pub fn say(start: &str, number: u64, rest: &str) -> (r: String)
    ensures
        r@ == start@ + decimal(number as nat) + rest@,
{
    let mut r = start.to_owned();
    r.append(self::number(number).as_str());
    r.append(rest);
    r
}

} // verus!
