//! What holds of the lists that a program file gives.
use crate::config;
use crate::laws::texts::stands;
use crate::text;
use vstd::prelude::*;

verus! {

/// The line is a heading.
pub open spec fn is_heading(line: Seq<char>) -> bool {
    text::begins(text::trimmed(line), "## "@)
}

/// What is added to the lines stands under the heading: it is the last of their headings.
pub open spec fn stands_under(lines: Seq<Seq<char>>, heading: Seq<char>) -> bool {
    exists|k: int|
        0 <= k < lines.len() && is_heading(lines[k]) && text::trimmed(#[trigger] lines[k])
            == heading && forall|j: int| k < j < lines.len() ==> !is_heading(#[trigger] lines[j])
}

proof fn lemma_under(lines: Seq<Seq<char>>, heading: Seq<char>)
    ensures
        config::list_under(lines, heading).in_section <==> stands_under(lines, heading),
    decreases lines.len(),
{
    if lines.len() > 0 {
        let rest = lines.drop_last();
        let last = lines.last();
        lemma_under(rest, heading);
        assert(lines[lines.len() - 1] == last);
        if is_heading(last) {
            if text::trimmed(last) == heading {
                let k = lines.len() - 1;
                assert(is_heading(lines[k]) && text::trimmed(lines[k]) == heading);
            }
        } else {
            if stands_under(lines, heading) {
                let k = choose|k: int|
                    0 <= k < lines.len() && is_heading(lines[k]) && text::trimmed(
                        #[trigger] lines[k],
                    ) == heading && forall|j: int|
                        k < j < lines.len() ==> !is_heading(#[trigger] lines[j]);
                assert(rest[k] == lines[k]);
                assert forall|j: int| k < j < rest.len() implies !is_heading(
                    #[trigger] rest[j],
                ) by {
                    assert(rest[j] == lines[j]);
                }
            }
            if stands_under(rest, heading) {
                let k = choose|k: int|
                    0 <= k < rest.len() && is_heading(rest[k]) && text::trimmed(
                        #[trigger] rest[k],
                    ) == heading && forall|j: int|
                        k < j < rest.len() ==> !is_heading(#[trigger] rest[j]);
                assert(rest[k] == lines[k]);
                assert forall|j: int| k < j < lines.len() implies !is_heading(
                    #[trigger] lines[j],
                ) by {
                    if j < rest.len() {
                        assert(rest[j] == lines[j]);
                    }
                }
            }
        }
    }
}

/// A list starts empty. A line adds to it only where it stands under the list's heading and starts
/// with a dash, and then what is read from behind the dash.
pub proof fn a_list_grows_by_its_lines(
    a: &str,
    b: &str,
    heading: &str,
    before: Vec<String>,
    after: Vec<String>,
    line: Seq<char>,
    item: &str,
    read: Option<String>,
)
    requires
        text::lines_of(b@) == text::lines_of(a@).push(line),
        call_ensures(config::parse_markdown_list, (a, heading), before),
        call_ensures(config::parse_markdown_list, (b, heading), after),
        text::trimmed(line) == "- "@ + item@ ==> call_ensures(
            config::parse_markdown_item,
            (item,),
            read,
        ),
    ensures
        a@.len() == 0 ==> before@.len() == 0,
        !stands_under(text::lines_of(a@), heading@) ==> text::texts(after@) == text::texts(before@),
        is_heading(line) ==> text::texts(after@) == text::texts(before@),
        !text::begins(text::trimmed(line), "- "@) ==> text::texts(after@) == text::texts(before@),
        (stands_under(text::lines_of(a@), heading@) && text::trimmed(line) == "- "@ + item@)
            ==> text::texts(after@) == (match read {
            Some(p) => text::texts(before@).push(p@),
            None => text::texts(before@),
        }),
{
    let lines = text::lines_of(a@);
    let more = text::lines_of(b@);
    assert(text::texts(before@).len() == before@.len());
    lemma_under(lines, heading@);
    assert(more.drop_last() =~= lines);
    assert(more.last() == line);
    let t = text::trimmed(line);
    if t == "- "@ + item@ {
        reveal_strlit("- ");
        reveal_strlit("## ");
        assert(t.take(2) =~= "- "@);
        assert(t.skip(2) =~= item@);
        assert(!text::begins(t, "## "@)) by {
            if text::begins(t, "## "@) {
                assert(t.take(3)[0] == t[0]);
            }
        }
    }
}

/// A dash between blanks, of any of the three kinds, starts in the text at the place.
pub open spec fn dash_at(s: Seq<char>, i: int) -> bool {
    ||| stands(s, " - "@, i)
    ||| stands(s, " \u{2013} "@, i)
    ||| stands(s, " \u{2014} "@, i)
}

proof fn lemma_stands(s: Seq<char>, p: Seq<char>, i: int)
    ensures
        stands(s, p, i) <==> text::occurs_at(s, p, i),
{
    if stands(s, p, i) {
        assert(s.subrange(i, i + p.len()) =~= p);
    }
    if text::occurs_at(s, p, i) {
        assert forall|k: int| 0 <= k < p.len() implies s[i + k] == #[trigger] p[k] by {
            assert(s.subrange(i, i + p.len())[k] == s[i + k]);
        }
    }
}

proof fn lemma_first(s: Seq<char>, p: Seq<char>, n: int)
    requires
        0 <= n,
        forall|i: int| 0 <= i < n ==> !#[trigger] stands(s, p, i),
    ensures
        stands(s, p, n) ==> text::find_from(s, p, 0) == Some(n),
        text::find_from(s, p, 0) matches Some(k) ==> k >= n,
{
    text::lemma_find_from(s, p, 0);
    if let Some(k) = text::find_from(s, p, 0) {
        lemma_stands(s, p, k);
        assert(stands(s, p, k));
    }
    if stands(s, p, n) {
        lemma_stands(s, p, n);
    }
}

proof fn lemma_described(head: Seq<char>, rest: Seq<char>)
    requires
        forall|i: int| 0 <= i < head.len() ==> !#[trigger] dash_at(head + rest, i),
        rest.len() == 0 || dash_at(head + rest, head.len() as int),
    ensures
        config::without_description(head + rest) == head,
{
    let s = head + rest;
    let n = head.len() as int;
    reveal_strlit(" - ");
    reveal_strlit(" \u{2013} ");
    reveal_strlit(" \u{2014} ");
    assert forall|i: int| 0 <= i < n implies !#[trigger] stands(s, " - "@, i) by {
        assert(!dash_at(s, i));
    }
    assert forall|i: int| 0 <= i < n implies !#[trigger] stands(s, " \u{2013} "@, i) by {
        assert(!dash_at(s, i));
    }
    assert forall|i: int| 0 <= i < n implies !#[trigger] stands(s, " \u{2014} "@, i) by {
        assert(!dash_at(s, i));
    }
    lemma_first(s, " - "@, n);
    lemma_first(s, " \u{2013} "@, n);
    lemma_first(s, " \u{2014} "@, n);
    if rest.len() == 0 {
        assert(s =~= head);
        text::lemma_find_from(s, " - "@, 0);
        text::lemma_find_from(s, " \u{2013} "@, 0);
        text::lemma_find_from(s, " \u{2014} "@, 0);
    } else {
        assert(s.take(n) =~= head);
    }
}

/// A pattern is read from between backticks, or as it stands where there are none; what follows a
/// dash between blanks describes it and is dropped.
pub proof fn how_a_pattern_is_read(
    p: Seq<char>,
    rest: Seq<char>,
    quoted: &str,
    bare: &str,
    q: Option<String>,
    r: Option<String>,
)
    requires
        p.len() > 0,
        !text::is_space(p[0]),
        !text::is_space(p.last()),
        forall|i: int| 0 <= i < p.len() ==> #[trigger] p[i] != '`',
        quoted@ == seq!['`'] + p + seq!['`'] + rest,
        bare@ == p + rest,
        call_ensures(config::parse_markdown_item, (quoted,), q),
        call_ensures(config::parse_markdown_item, (bare,), r),
    ensures
        ((forall|i: int| 0 <= i < p.len() + 2 ==> !#[trigger] dash_at(quoted@, i)) && (rest.len()
            == 0 || dash_at(quoted@, p.len() as int + 2))) ==> (q matches Some(t) && t@ == p),
        ((forall|i: int| 0 <= i < p.len() ==> !#[trigger] dash_at(bare@, i)) && (rest.len() == 0
            || dash_at(bare@, p.len() as int))) ==> (r matches Some(t) && t@ == p),
{
    reveal_strlit("`");
    let tick = "`"@;
    if (forall|i: int| 0 <= i < p.len() + 2 ==> !#[trigger] dash_at(quoted@, i)) && (rest.len()
        == 0 || dash_at(quoted@, p.len() as int + 2)) {
        let head = seq!['`'] + p + seq!['`'];
        assert(quoted@ == head + rest);
        lemma_described(head, rest);
        assert(head.last() == '`');
        text::lemma_trimmed_already(head);
        assert(head.subrange(0, 1) =~= tick);
        text::lemma_found_at(head, tick, 0, 0);
        let inner = p + seq!['`'];
        assert(head.skip(0 + tick.len() as int) =~= inner);
        let n = p.len() as int;
        assert(inner.subrange(n, n + 1) =~= tick);
        assert forall|j: int| 0 <= j < n implies !text::occurs_at(inner, tick, j) by {
            if text::occurs_at(inner, tick, j) {
                assert(inner.subrange(j, j + 1)[0] == inner[j]);
                assert(inner[j] == p[j]);
            }
        }
        text::lemma_found_at(inner, tick, 0, n);
        assert(inner.take(n) =~= p);
        text::lemma_trimmed_already(p);
    }
    if (forall|i: int| 0 <= i < p.len() ==> !#[trigger] dash_at(bare@, i)) && (rest.len() == 0
        || dash_at(bare@, p.len() as int)) {
        lemma_described(p, rest);
        text::lemma_trimmed_already(p);
        assert forall|j: int| 0 <= j implies !text::occurs_at(p, tick, j) by {
            if text::occurs_at(p, tick, j) {
                assert(p.subrange(j, j + 1)[0] == p[j]);
            }
        }
        text::lemma_not_found(p, tick, 0);
        assert(p[p.len() - 1] != '`');
    }
}

/// Only the two words are read as a yes and a no, whatever blanks are around them.
pub proof fn what_is_a_yes_or_a_no(value: &str, trimmed: &str, r: Result<bool, String>)
    requires
        call_ensures(config::parse_bool, (value,), r),
        call_ensures(text::trim, (value,), trimmed),
    ensures
        r == Ok::<bool, String>(true) <==> trimmed@ == "true"@,
        r == Ok::<bool, String>(false) <==> trimmed@ == "false"@,
        r is Err <==> trimmed@ != "true"@ && trimmed@ != "false"@,
{
    reveal_strlit("true");
    reveal_strlit("false");
    assert("true"@.len() == 4);
    assert("false"@.len() == 5);
}

} // verus!
