//! What holds of texts that are searched, taken apart and put together.
use crate::text;
use vstd::prelude::*;

verus! {

/// The pattern stands in the text from the place on.
pub open spec fn stands(s: Seq<char>, p: Seq<char>, i: int) -> bool {
    &&& 0 <= i
    &&& i + p.len() <= s.len()
    &&& forall|k: int| 0 <= k < p.len() ==> s[i + k] == #[trigger] p[k]
}

proof fn lemma_stands(s: Seq<char>, p: Seq<char>, i: int)
    ensures
        stands(s, p, i) <==> text::occurs_at(s, p, i),
{
    if stands(s, p, i) {
        assert(s.subrange(i, i + p.len()) =~= p);
    }
    if text::occurs_at(s, p, i) {
        assert forall|k: int| 0 <= k < p.len() implies s[i + k] == #[trigger] p[k] by {
            assert(s.subrange(i, i + p.len())[k] == s[i + k]);
        }
    }
}

/// A search finds the first place where a pattern stands, and nothing only where it stands nowhere.
pub proof fn a_search_finds_the_first_place(s: &str, p: &str, r: Option<usize>, c: bool)
    requires
        call_ensures(text::find, (s, p), r),
        call_ensures(text::contains, (s, p), c),
    ensures
        c <==> r is Some,
        r matches Some(k) ==> stands(s@, p@, k as int) && forall|i: int|
            0 <= i < k ==> !#[trigger] stands(s@, p@, i),
        r is None ==> forall|i: int| !#[trigger] stands(s@, p@, i),
{
    text::lemma_find_from(s@, p@, 0);
    assert forall|i: int| #[trigger] stands(s@, p@, i) <==> text::occurs_at(s@, p@, i) by {
        lemma_stands(s@, p@, i);
    }
}

/// A text starts with another one, or ends with it, exactly where it is the other one and a rest.
pub proof fn how_a_text_starts_and_ends(
    s: &str,
    p: &str,
    starts: bool,
    behind: Option<&str>,
    ends: bool,
    ahead: Option<&str>,
)
    requires
        call_ensures(text::starts_with, (s, p), starts),
        call_ensures(text::strip_prefix, (s, p), behind),
        call_ensures(text::ends_with, (s, p), ends),
        call_ensures(text::strip_suffix, (s, p), ahead),
    ensures
        starts <==> exists|rest: Seq<char>| s@ == p@ + rest,
        starts <==> behind is Some,
        behind matches Some(t) ==> s@ == p@ + t@,
        ends <==> exists|rest: Seq<char>| s@ == rest + p@,
        ends <==> ahead is Some,
        ahead matches Some(t) ==> s@ == t@ + p@,
{
    if starts {
        let rest = s@.skip(p@.len() as int);
        assert(s@ =~= p@ + rest);
    }
    if exists|rest: Seq<char>| s@ == p@ + rest {
        let rest = choose|rest: Seq<char>| s@ == p@ + rest;
        assert(s@.take(p@.len() as int) =~= p@);
    }
    if ends {
        let rest = s@.take(s@.len() - p@.len());
        assert(s@ =~= rest + p@);
    }
    if exists|rest: Seq<char>| s@ == rest + p@ {
        let rest = choose|rest: Seq<char>| s@ == rest + p@;
        assert(s@.skip(s@.len() - p@.len()) =~= p@);
    }
}

/// A text that is cut at a pattern is what stands before it, the pattern and what stands behind it;
/// the pattern does not stand earlier.
pub proof fn a_cut_text_is_its_two_parts(s: &str, p: &str, r: Option<(&str, &str)>)
    requires
        call_ensures(text::split_once, (s, p), r),
    ensures
        r matches Some((a, b)) ==> s@ == a@ + p@ + b@ && forall|i: int|
            0 <= i < a@.len() ==> !#[trigger] stands(s@, p@, i),
        r is None ==> forall|i: int| !#[trigger] stands(s@, p@, i),
{
    text::lemma_find_from(s@, p@, 0);
    assert forall|i: int| #[trigger] stands(s@, p@, i) <==> text::occurs_at(s@, p@, i) by {
        lemma_stands(s@, p@, i);
    }
    if let Some((a, b)) = r {
        let k = text::find_from(s@, p@, 0)->Some_0;
        assert(s@ =~= s@.take(k) + s@.subrange(k, k + p@.len()) + s@.skip(k + p@.len()));
    }
}

/// All blanks, and none of the characters that are seen: the ASCII ones.
pub proof fn what_is_blank(c: char, r: bool)
    requires
        call_ensures(text::space, (c,), r),
        (c as u32) < 128,
    ensures
        r <==> c == ' ' || c == '\t' || c == '\n' || c == '\r' || c as u32 == 11 || c as u32 == 12,
{
}

proof fn lemma_trim_start(s: Seq<char>) -> (k: int)
    ensures
        0 <= k <= s.len(),
        text::trimmed_start(s) == s.skip(k),
        forall|i: int| 0 <= i < k ==> text::is_space(#[trigger] s[i]),
        k < s.len() ==> !text::is_space(s[k]),
    decreases s.len(),
{
    if s.len() > 0 && text::is_space(s[0]) {
        let k = lemma_trim_start(s.drop_first());
        assert(s.drop_first().skip(k) =~= s.skip(k + 1));
        assert forall|i: int| 0 <= i < k + 1 implies text::is_space(#[trigger] s[i]) by {
            if i > 0 {
                assert(s.drop_first()[i - 1] == s[i]);
            }
        }
        k + 1
    } else {
        assert(s.skip(0) =~= s);
        0
    }
}

proof fn lemma_trim_end(s: Seq<char>) -> (k: int)
    ensures
        0 <= k <= s.len(),
        text::trimmed_end(s) == s.take(k),
        forall|i: int| k <= i < s.len() ==> text::is_space(#[trigger] s[i]),
        k > 0 ==> !text::is_space(s[k - 1]),
    decreases s.len(),
{
    if s.len() > 0 && text::is_space(s.last()) {
        let k = lemma_trim_end(s.drop_last());
        assert(s.drop_last().take(k) =~= s.take(k));
        assert forall|i: int| k <= i < s.len() implies text::is_space(#[trigger] s[i]) by {
            if i < s.len() - 1 {
                assert(s.drop_last()[i] == s[i]);
            }
        }
        k
    } else {
        assert(s.take(s.len() as int) =~= s);
        s.len() as int
    }
}

/// Trimming drops blanks at the two ends, all of them, and nothing else.
pub proof fn trimming_drops_blanks_alone(s: &str, r: &str, start: &str, end: &str)
    requires
        call_ensures(text::trim, (s,), r),
        call_ensures(text::trim_start, (s,), start),
        call_ensures(text::trim_end, (s,), end),
    ensures
        exists|i: int, j: int|
            0 <= i <= j <= s@.len() && r@ == #[trigger] s@.subrange(i, j) && (forall|k: int|
                0 <= k < i || j <= k < s@.len() ==> text::is_space(#[trigger] s@[k])),
        r@.len() > 0 ==> !text::is_space(r@[0]) && !text::is_space(r@.last()),
        exists|i: int|
            0 <= i <= s@.len() && start@ == #[trigger] s@.skip(i) && (forall|k: int|
                0 <= k < i ==> text::is_space(#[trigger] s@[k])),
        start@.len() > 0 ==> !text::is_space(start@[0]),
        exists|j: int|
            0 <= j <= s@.len() && end@ == #[trigger] s@.take(j) && (forall|k: int|
                j <= k < s@.len() ==> text::is_space(#[trigger] s@[k])),
        end@.len() > 0 ==> !text::is_space(end@.last()),
{
    let i = lemma_trim_start(s@);
    let t = s@.skip(i);
    let j = lemma_trim_end(t);
    let e = lemma_trim_end(s@);
    assert(t.take(j) =~= s@.subrange(i, i + j));
    assert forall|k: int| 0 <= k < i || i + j <= k < s@.len() implies text::is_space(
        #[trigger] s@[k],
    ) by {
        if k >= i + j {
            assert(t[k - i] == s@[k]);
        }
    }
    if j > 0 {
        assert(r@[0] == t[0] && t[0] == s@[i]);
        assert(r@.last() == t[j - 1]);
    }
}

proof fn lemma_pieces(s: Seq<char>, p: Seq<char>)
    requires
        p.len() > 0,
    ensures
        text::pieces(s, p).len() > 0,
        text::joined(text::pieces(s, p), p) == s,
        forall|i: int, k: int|
            0 <= i < text::pieces(s, p).len() ==> !#[trigger] stands(text::pieces(s, p)[i], p, k),
    decreases s.len(),
{
    text::lemma_find_from(s, p, 0);
    let all = text::pieces(s, p);
    match text::find_from(s, p, 0) {
        Some(n) => {
            let rest = s.skip(n + p.len());
            lemma_pieces(rest, p);
            let more = text::pieces(rest, p);
            assert(all == seq![s.take(n)] + more);
            lemma_joined_first(s.take(n), more, p);
            assert(s =~= s.take(n) + p + rest) by {
                assert(s =~= s.take(n) + s.subrange(n, n + p.len()) + s.skip(n + p.len()));
            }
            assert forall|i: int, k: int| 0 <= i < all.len() implies !#[trigger] stands(
                all[i],
                p,
                k,
            ) by {
                if i == 0 {
                    if stands(all[i], p, k) {
                        let a = s.take(n);
                        assert(stands(s, p, k)) by {
                            assert forall|j: int| 0 <= j < p.len() implies s[k + j]
                                == #[trigger] p[j] by {
                                assert(a[k + j] == p[j]);
                            }
                        }
                        lemma_stands(s, p, k);
                    }
                } else {
                    assert(all[i] == more[i - 1]);
                }
            }
        },
        None => {
            assert(all =~= seq![s]);
            assert forall|i: int, k: int| 0 <= i < all.len() implies !#[trigger] stands(
                all[i],
                p,
                k,
            ) by {
                lemma_stands(s, p, k);
            }
        },
    }
}

proof fn lemma_joined_first(a: Seq<char>, more: Seq<Seq<char>>, p: Seq<char>)
    requires
        more.len() > 0,
    ensures
        text::joined(seq![a] + more, p) == a + p + text::joined(more, p),
    decreases more.len(),
{
    let all = seq![a] + more;
    if more.len() == 1 {
        assert(all.drop_last() =~= seq![a]);
        assert(text::joined(seq![a], p) == a);
        assert(all.last() == more[0]);
        assert(text::joined(all, p) =~= a + p + text::joined(more, p));
    } else {
        assert(all.drop_last() =~= seq![a] + more.drop_last());
        assert(all.last() == more.last());
        lemma_joined_first(a, more.drop_last(), p);
        assert(text::joined(all, p) =~= a + p + text::joined(more, p));
    }
}

/// A text that is split at a pattern is had back by joining the pieces with it, and the pattern
/// stands in no piece.
pub proof fn split_texts_are_had_back(s: &str, p: &str, pieces: Vec<String>, r: String)
    requires
        p@.len() > 0,
        call_ensures(text::split, (s, p), pieces),
        call_ensures(text::join, (&pieces, p), r),
    ensures
        r@ == s@,
        pieces@.len() > 0,
        forall|i: int, k: int|
            0 <= i < pieces@.len() ==> !#[trigger] stands((#[trigger] pieces@[i])@, p@, k),
{
    lemma_pieces(s@, p@);
    assert(text::texts(pieces@).len() == pieces@.len());
    assert forall|i: int, k: int| 0 <= i < pieces@.len() implies !#[trigger] stands(
        (#[trigger] pieces@[i])@,
        p@,
        k,
    ) by {
        assert(text::texts(pieces@)[i] == pieces@[i]@);
    }
}

proof fn lemma_lines(s: Seq<char>)
    requires
        s.len() > 0,
        !s.contains('\r'),
    ensures
        text::lines_of(s).len() > 0,
        s == (if s.last() == '\n' {
            text::joined(text::lines_of(s), seq!['\n']).push('\n')
        } else {
            text::joined(text::lines_of(s), seq!['\n'])
        }),
    decreases s.len(),
{
    let p = seq!['\n'];
    text::lemma_find_from(s, p, 0);
    let all = text::lines_of(s);
    match text::find_from(s, p, 0) {
        Some(n) => {
            assert(s.subrange(n, n + 1)[0] == '\n');
            let a = s.take(n);
            let rest = s.skip(n + 1);
            if a.len() > 0 {
                assert(s.contains(s[n - 1]));
            }
            assert(text::without_return(a) == a);
            assert(s =~= a + p + rest);
            if rest.len() > 0 {
                assert(!rest.contains('\r')) by {
                    if rest.contains('\r') {
                        let k = choose|k: int| 0 <= k < rest.len() && rest[k] == '\r';
                        assert(s[n + 1 + k] == '\r');
                    }
                }
                lemma_lines(rest);
                lemma_joined_first(a, text::lines_of(rest), p);
                assert(rest.last() == s.last());
                if s.last() == '\n' {
                    assert(s =~= text::joined(all, p).push('\n'));
                } else {
                    assert(s =~= text::joined(all, p));
                }
            } else {
                assert(text::lines_of(rest) =~= Seq::empty());
                assert(all =~= seq![a]);
                assert(s.last() == '\n');
                assert(s =~= text::joined(all, p).push('\n'));
            }
        },
        None => {
            assert(all =~= seq![s]);
            if s.last() == '\n' {
                let k = s.len() - 1;
                assert(s.subrange(k, k + 1) =~= p);
                assert(text::occurs_at(s, p, k));
            }
        },
    }
}

proof fn lemma_no_break(s: Seq<char>)
    ensures
        forall|i: int|
            0 <= i < text::lines_of(s).len() ==> !(#[trigger] text::lines_of(s)[i]).contains('\n'),
    decreases s.len(),
{
    let p = seq!['\n'];
    let all = text::lines_of(s);
    if s.len() > 0 {
        text::lemma_find_from(s, p, 0);
        match text::find_from(s, p, 0) {
            Some(n) => {
                let rest = s.skip(n + 1);
                lemma_no_break(rest);
                let a = text::without_return(s.take(n));
                assert(all == seq![a] + text::lines_of(rest));
                assert forall|i: int| 0 <= i < all.len() implies !(#[trigger] all[i]).contains(
                    '\n',
                ) by {
                    if i == 0 {
                        if a.contains('\n') {
                            let k = choose|k: int| 0 <= k < a.len() && a[k] == '\n';
                            assert(s[k] == '\n');
                            assert(s.subrange(k, k + 1) =~= p);
                            assert(text::occurs_at(s, p, k));
                        }
                    } else {
                        assert(all[i] == text::lines_of(rest)[i - 1]);
                    }
                }
            },
            None => {
                assert(all =~= seq![s]);
                if s.contains('\n') {
                    let k = choose|k: int| 0 <= k < s.len() && s[k] == '\n';
                    assert(s.subrange(k, k + 1) =~= p);
                    assert(text::occurs_at(s, p, k));
                }
            },
        }
    }
}

/// No line holds a break, and the lines with a break between them are the text, which may end with
/// one more; the text holds no carriage return.
pub proof fn lines_are_had_back(s: &str, br: &str, lines: Vec<String>, r: String)
    requires
        br@ == seq!['\n'],
        !s@.contains('\r'),
        call_ensures(text::lines, (s,), lines),
        call_ensures(text::join, (&lines, br), r),
    ensures
        forall|i: int| 0 <= i < lines@.len() ==> !(#[trigger] lines@[i])@.contains('\n'),
        s@.len() == 0 ==> lines@.len() == 0,
        s@.len() > 0 && s@.last() == '\n' ==> s@ == r@.push('\n'),
        s@.len() > 0 && s@.last() != '\n' ==> s@ == r@,
{
    assert(text::texts(lines@).len() == lines@.len());
    lemma_no_break(s@);
    assert forall|i: int| 0 <= i < lines@.len() implies !(#[trigger] lines@[i])@.contains(
        '\n',
    ) by {
        assert(text::texts(lines@)[i] == lines@[i]@);
    }
    if s@.len() > 0 {
        lemma_lines(s@);
    }
}

/// The characters that are no blanks.
pub open spec fn seen() -> spec_fn(char) -> bool {
    |c: char| !text::is_space(c)
}

proof fn lemma_no_blank(s: Seq<char>)
    requires
        forall|i: int| 0 <= i < s.len() ==> !text::is_space(#[trigger] s[i]),
    ensures
        s.filter(seen()) == s,
    decreases s.len(),
{
    reveal(Seq::filter);
    if s.len() > 0 {
        lemma_no_blank(s.drop_last());
        assert(s.drop_last().push(s.last()) =~= s);
    }
}

proof fn lemma_all_blank(s: Seq<char>)
    requires
        forall|i: int| 0 <= i < s.len() ==> text::is_space(#[trigger] s[i]),
    ensures
        s.filter(seen()) == Seq::<char>::empty(),
    decreases s.len(),
{
    reveal(Seq::filter);
    if s.len() > 0 {
        lemma_all_blank(s.drop_last());
    }
}

proof fn lemma_run(s: Seq<char>)
    ensures
        text::word_length(s) <= s.len(),
        forall|i: int| 0 <= i < text::word_length(s) ==> !text::is_space(#[trigger] s[i]),
        text::word_length(s) < s.len() ==> text::is_space(s[text::word_length(s) as int]),
    decreases s.len(),
{
    if s.len() > 0 && !text::is_space(s[0]) {
        let t = s.drop_first();
        lemma_run(t);
        assert forall|i: int| 0 <= i < text::word_length(s) implies !text::is_space(
            #[trigger] s[i],
        ) by {
            if i > 0 {
                assert(t[i - 1] == s[i]);
            }
        }
    }
}

proof fn lemma_words(s: Seq<char>)
    ensures
        text::words_of(s).flatten() == s.filter(seen()),
        forall|i: int|
            0 <= i < text::words_of(s).len() ==> (#[trigger] text::words_of(s)[i]).len() > 0
                && forall|k: int|
                0 <= k < text::words_of(s)[i].len() ==> !text::is_space(
                    #[trigger] text::words_of(s)[i][k],
                ),
    decreases s.len(),
{
    let n = lemma_trim_start(s);
    let t = text::trimmed_start(s);
    lemma_all_blank(s.take(n));
    assert(s =~= s.take(n) + t);
    Seq::filter_distributes_over_add(s.take(n), t, seen());
    if t.len() == 0 {
        assert(t =~= Seq::empty());
        reveal(Seq::filter);
        assert(text::words_of(s) =~= Seq::empty());
    } else {
        lemma_run(t);
        text::lemma_word_length(t);
        let w = text::word_length(t) as int;
        let word = t.take(w);
        let rest = t.skip(w);
        assert(t =~= word + rest);
        assert forall|i: int| 0 <= i < word.len() implies !text::is_space(#[trigger] word[i]) by {
            assert(t[i] == word[i]);
        }
        lemma_no_blank(word);
        Seq::filter_distributes_over_add(word, rest, seen());
        lemma_words(rest);
        let more = text::words_of(rest);
        let all = text::words_of(s);
        assert(all == seq![word] + more);
        assert(all.drop_first() =~= more);
        assert(all.flatten() =~= word + more.flatten());
        assert forall|i: int| 0 <= i < all.len() implies (#[trigger] all[i]).len() > 0 && forall|
            k: int,
        |
            0 <= k < all[i].len() ==> !text::is_space(#[trigger] all[i][k]) by {
            if i > 0 {
                assert(all[i] == more[i - 1]);
            }
        }
        assert(s.filter(seen()) =~= word + rest.filter(seen()));
    }
}

/// The words of a text hold no blanks and are not empty; together they hold all that is no blank,
/// in its order.
pub proof fn words_hold_all_but_the_blanks(s: &str, r: Vec<String>)
    requires
        call_ensures(text::split_whitespace, (s,), r),
    ensures
        text::texts(r@).flatten() == s@.filter(|c: char| !text::is_space(c)),
        forall|i: int| 0 <= i < r@.len() ==> (#[trigger] r@[i])@.len() > 0,
        forall|i: int, k: int|
            0 <= i < r@.len() && 0 <= k < r@[i]@.len() ==> !text::is_space(
                #[trigger] (#[trigger] r@[i])@[k],
            ),
{
    lemma_words(s@);
    let all = text::texts(r@);
    assert forall|i: int| 0 <= i < r@.len() implies r@[i]@ == #[trigger] all[i] by {}
    assert forall|i: int| 0 <= i < r@.len() implies (#[trigger] r@[i])@.len() > 0 by {
        assert(all[i].len() > 0);
    }
    assert forall|i: int, k: int| 0 <= i < r@.len() && 0 <= k < r@[i]@.len() implies !text::is_space(
        #[trigger] (#[trigger] r@[i])@[k],
    ) by {
        assert(!text::is_space(all[i][k]));
    }
}

/// A written number reads back, and a sign before it changes nothing.
pub proof fn a_written_number_reads_back(n: u64, w: String, s: &str, max: u64, r: Option<u64>)
    requires
        call_ensures(text::number, (n,), w),
        s@ == w@ || s@ == seq!['+'] + w@,
        call_ensures(text::parse_number, (s, max), r),
    ensures
        n <= max ==> r == Some(n),
        n > max ==> r is None,
        forall|i: int| 0 <= i < w@.len() ==> '0' <= #[trigger] w@[i] <= '9',
        w@[0] == '0' <==> n == 0,
{
    text::lemma_decimal(n as nat);
    lemma_first_digit(n as nat);
    if s@ != w@ {
        assert(s@.drop_first() =~= w@);
    }
}

proof fn lemma_first_digit(n: nat)
    ensures
        text::decimal(n).len() > 0,
        text::decimal(n)[0] == '0' <==> n == 0,
    decreases n,
{
    if n >= 10 {
        lemma_first_digit(n / 10);
    }
}

/// Only digits, with a sign before them or not, are read as a number, which then is the value of
/// the digits.
pub proof fn what_reads_as_a_number(
    s: &str,
    t: &str,
    d: char,
    max: u64,
    r: Option<u64>,
    q: Option<u64>,
)
    requires
        call_ensures(text::parse_number, (s, max), r),
        call_ensures(text::parse_number, (t, max), q),
        t@ == s@.push(d),
    ensures
        s@.len() == 0 ==> r is None,
        r is Some ==> s@[0] == '+' || '0' <= s@[0] <= '9',
        r is Some ==> forall|i: int| 0 < i < s@.len() ==> '0' <= #[trigger] s@[i] <= '9',
        q is Some ==> '0' <= d <= '9',
        (r is Some && '0' <= d <= '9' && r->Some_0 * 10 + (d as u32 - 48) <= max) ==> q is Some
            && q->Some_0 == r->Some_0 * 10 + (d as u32 - 48),
        (r is Some && '0' <= d <= '9' && r->Some_0 * 10 + (d as u32 - 48) > max) ==> q is None,
{
    let a = if s@.len() > 0 && s@[0] == '+' {
        s@.drop_first()
    } else {
        s@
    };
    let b = if t@.len() > 0 && t@[0] == '+' {
        t@.drop_first()
    } else {
        t@
    };
    if s@.len() > 0 {
        assert(t@[0] == s@[0]);
        assert(b =~= a.push(d));
        assert(b.drop_last() =~= a);
        assert(b.last() == d);
        if r is Some {
            assert forall|i: int| 0 < i < s@.len() implies '0' <= #[trigger] s@[i] <= '9' by {
                if s@[0] == '+' {
                    assert(text::is_digit(a[i - 1]));
                } else {
                    assert(text::is_digit(a[i]));
                }
            }
            assert(text::is_digit(a[0]));
        }
        if q is Some {
            assert(text::is_digit(b[b.len() - 1]));
        }
        if r is Some && '0' <= d <= '9' {
            assert(text::all_digits(b)) by {
                assert forall|i: int| 0 <= i < b.len() implies text::is_digit(
                    #[trigger] b[i],
                ) by {
                    if i < a.len() {
                        assert(text::is_digit(a[i]));
                    }
                }
            }
        }
    } else {
        if q is Some {
            if d == '+' {
                assert(b.len() == 0);
            } else {
                assert(text::is_digit(b[0]));
            }
        }
    }
}

/// In lower case a text has the same length; the capital letters are replaced by the small ones,
/// and nothing else is changed.
pub proof fn lower_case_changes_capitals_alone(s: &str, r: String, i: int)
    requires
        call_ensures(text::to_ascii_lowercase, (s,), r),
        0 <= i < s@.len(),
    ensures
        r@.len() == s@.len(),
        'A' <= s@[i] <= 'Z' ==> r@[i] as u32 == s@[i] as u32 + 32,
        !('A' <= s@[i] <= 'Z') ==> r@[i] == s@[i],
{
}

proof fn lemma_after_last(s: Seq<char>, c: char)
    ensures
        !text::after_last(s, c).contains(c),
        s.contains(c) ==> exists|a: Seq<char>| s == a.push(c) + text::after_last(s, c),
        !s.contains(c) ==> text::after_last(s, c) == s,
    decreases s.len(),
{
    let r = text::after_last(s, c);
    if s.len() > 0 {
        if s.last() == c {
            assert(s =~= s.drop_last().push(c) + r);
            assert(s.contains(s[s.len() - 1]));
        } else {
            let t = s.drop_last();
            lemma_after_last(t, c);
            let q = text::after_last(t, c);
            if r.contains(c) {
                let k = choose|k: int| 0 <= k < r.len() && r[k] == c;
                assert(q[k] == c);
            }
            if s.contains(c) {
                let k = choose|k: int| 0 <= k < s.len() && s[k] == c;
                assert(t[k] == c);
                let a = choose|a: Seq<char>| t == a.push(c) + q;
                assert(s =~= t.push(s.last()));
                assert(r =~= q.push(s.last()));
                assert(s =~= a.push(c) + r);
            } else {
                if t.contains(c) {
                    let k = choose|k: int| 0 <= k < t.len() && t[k] == c;
                    assert(s[k] == c);
                }
                assert(r =~= s);
            }
        }
    }
}

/// The last part of a text is what stands behind the last of the characters that part it, and all
/// of the text where there is none.
pub proof fn the_last_part_follows_the_last_mark(s: &str, c: char, r: String)
    requires
        call_ensures(text::last_part, (s, c), r),
    ensures
        !r@.contains(c),
        s@.contains(c) ==> exists|a: Seq<char>| s@ == a.push(c) + r@,
        !s@.contains(c) ==> r@ == s@,
{
    lemma_after_last(s@, c);
}

proof fn lemma_without_trailing(s: Seq<char>, c: char)
    ensures
        text::without_trailing(s, c).len() <= s.len(),
        text::without_trailing(s, c) == s.take(text::without_trailing(s, c).len() as int),
        forall|i: int|
            text::without_trailing(s, c).len() <= i < s.len() ==> #[trigger] s[i] == c,
        text::without_trailing(s, c).len() > 0 ==> text::without_trailing(s, c).last() != c,
    decreases s.len(),
{
    if s.len() > 0 && s.last() == c {
        let t = s.drop_last();
        lemma_without_trailing(t, c);
        let n = text::without_trailing(s, c).len();
        assert(t.take(n as int) =~= s.take(n as int));
        assert forall|i: int| n <= i < s.len() implies #[trigger] s[i] == c by {
            if i < t.len() {
                assert(t[i] == s[i]);
            }
        }
    } else {
        assert(s.take(s.len() as int) =~= s);
    }
}

/// A character is dropped at the end of a text as often as it stands there.
pub proof fn a_mark_is_dropped_at_the_end(s: &str, c: char, r: &str)
    requires
        call_ensures(text::trim_end_char, (s, c), r),
    ensures
        r@.len() <= s@.len(),
        r@ == s@.take(r@.len() as int),
        forall|i: int| r@.len() <= i < s@.len() ==> #[trigger] s@[i] == c,
        r@.len() > 0 ==> r@.last() != c,
{
    lemma_without_trailing(s@, c);
}

proof fn lemma_without_suffixes(s: Seq<char>, p: Seq<char>)
    ensures
        p.len() > 0 ==> !text::ends(text::without_suffixes(s, p), p),
        text::without_suffixes(s, p).len() <= s.len(),
        text::without_suffixes(s, p) == s.take(text::without_suffixes(s, p).len() as int),
        text::without_suffixes(s + p, p) == text::without_suffixes(s, p),
    decreases s.len(),
{
    assert((s + p).skip((s + p).len() - p.len()) =~= p);
    assert((s + p).take((s + p).len() - p.len()) =~= s);
    if p.len() == 0 {
        assert(s + p =~= s);
    }
    if p.len() > 0 && text::ends(s, p) {
        let t = s.take(s.len() - p.len());
        lemma_without_suffixes(t, p);
        let n = text::without_suffixes(s, p).len();
        assert(t.take(n as int) =~= s.take(n as int));
    } else {
        assert(s.take(s.len() as int) =~= s);
    }
}

/// An ending is dropped as often as it stands at the end of a text.
pub proof fn an_ending_is_dropped(s: &str, t: &str, p: &str, r: &str, q: &str)
    requires
        p@.len() > 0,
        t@ == s@ + p@,
        call_ensures(text::trim_end_str, (s, p), r),
        call_ensures(text::trim_end_str, (t, p), q),
    ensures
        q@ == r@,
        r@.len() <= s@.len(),
        r@ == s@.take(r@.len() as int),
        !exists|a: Seq<char>| r@ == a + p@,
{
    lemma_without_suffixes(s@, p@);
    if exists|a: Seq<char>| r@ == a + p@ {
        let a = choose|a: Seq<char>| r@ == a + p@;
        assert((a + p@).skip((a + p@).len() - p@.len()) =~= p@);
    }
}

/// A text is listed exactly where it stands in the list.
pub proof fn a_listed_text_is_found(list: Vec<String>, s: &str, r: bool)
    requires
        call_ensures(text::is_listed, (&list, s), r),
    ensures
        r <==> exists|i: int| 0 <= i < list@.len() && (#[trigger] list@[i])@ == s@,
{
    let all = text::texts(list@);
    if exists|i: int| 0 <= i < list@.len() && (#[trigger] list@[i])@ == s@ {
        let i = choose|i: int| 0 <= i < list@.len() && (#[trigger] list@[i])@ == s@;
        assert(all[i] == s@);
    }
    if r {
        let i = choose|i: int| 0 <= i < all.len() && all[i] == s@;
        assert(list@[i]@ == s@);
    }
}

} // verus!
