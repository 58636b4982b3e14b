//! The block inside a comment: its header, its fields and the text around it.
use crate::text;
use vstd::prelude::*;
use vstd::string::*;

verus! {

/// A character of the name of a kind of comment.
pub open spec fn is_kind_char(c: char) -> bool {
    ('a' <= c <= 'z') || c == '-'
}

/// How many characters of white space stand in `s` from `i` on.
pub open spec fn space_run(s: Seq<char>, i: int) -> nat
    decreases s.len() - i,
{
    if 0 <= i < s.len() && text::is_space(s[i]) {
        1 + space_run(s, i + 1)
    } else {
        0
    }
}

/// How many characters of a kind's name stand in `s` from `i` on.
pub open spec fn kind_run(s: Seq<char>, i: int) -> nat
    decreases s.len() - i,
{
    if 0 <= i < s.len() && is_kind_char(s[i]) {
        1 + kind_run(s, i + 1)
    } else {
        0
    }
}

/// The position behind the last line break among the `n` characters from `i` on.
pub open spec fn last_break(s: Seq<char>, i: int, n: nat) -> Option<int>
    decreases n,
{
    if n == 0 {
        None
    } else if s[i + n - 1] == '\n' {
        Some(i + n)
    } else {
        last_break(s, i, (n - 1) as nat)
    }
}

/// The header of a block: where the name of its kind starts and ends, and where its fields
/// start.
pub struct Header {
    pub kind_from: int,
    pub kind_to: int,
    pub payload_from: int,
}

/// The header at position `i`: the opening of an HTML comment, white space, `polyresearch:`, the
/// name of a kind, and white space with a line break in it.
pub open spec fn header_at(s: Seq<char>, i: int) -> Option<Header> {
    let mark = i + 4 + space_run(s, i + 4);
    let from = mark + 13;
    let to = from + kind_run(s, from);
    if text::occurs_at(s, "<!--"@, i) && text::occurs_at(s, "polyresearch:"@, mark) && from < to {
        match last_break(s, to, space_run(s, to)) {
            Some(p) => Some(Header { kind_from: from, kind_to: to, payload_from: p }),
            None => None,
        }
    } else {
        None
    }
}

/// A block of a comment.
pub struct Block {
    /// Where the block starts.
    pub start: int,
    /// The name of its kind.
    pub kind: Seq<char>,
    /// The text of its fields.
    pub payload: Seq<char>,
}

/// The block at position `i`: a header, and what stands between it and the end of the HTML
/// comment.
pub open spec fn block_at(s: Seq<char>, i: int) -> Option<Block> {
    match header_at(s, i) {
        Some(h) => match text::find_from(s, "-->"@, h.payload_from) {
            Some(e) => Some(
                Block {
                    start: i,
                    kind: s.subrange(h.kind_from, h.kind_to),
                    payload: s.subrange(h.payload_from, e),
                },
            ),
            None => None,
        },
        None => None,
    }
}

/// The first block from position `i` on.
pub open spec fn first_block(s: Seq<char>, i: int) -> Option<Block>
    decreases s.len() - i,
{
    if i >= s.len() {
        None
    } else {
        match block_at(s, i) {
            Some(b) => Some(b),
            None => first_block(s, i + 1),
        }
    }
}

/// A run of white space ends within the text, and all of it is white space.
pub proof fn lemma_space_run(s: Seq<char>, i: int)
    requires
        0 <= i,
    ensures
        i <= s.len() ==> i + space_run(s, i) <= s.len(),
        forall|j: int| i <= j < i + space_run(s, i) ==> text::is_space(#[trigger] s[j]),
    decreases s.len() - i,
{
    if i < s.len() && text::is_space(s[i]) {
        lemma_space_run(s, i + 1);
    }
}

/// A name ends within the text.
pub proof fn lemma_kind_run(s: Seq<char>, i: int)
    requires
        0 <= i,
    ensures
        i <= s.len() ==> i + kind_run(s, i) <= s.len(),
    decreases s.len() - i,
{
    if i < s.len() && is_kind_char(s[i]) {
        lemma_kind_run(s, i + 1);
    }
}

/// The last line break lies among the characters that were looked at.
pub proof fn lemma_last_break(s: Seq<char>, i: int, n: nat)
    ensures
        match last_break(s, i, n) {
            Some(p) => i < p <= i + n && s[p - 1] == '\n',
            None => forall|j: int| i <= j < i + n ==> s[j] != '\n',
        },
    decreases n,
{
    if n > 0 && s[i + n - 1] != '\n' {
        lemma_last_break(s, i, (n - 1) as nat);
    }
}

/// A block found in a text.
pub struct FoundBlock {
    pub start: usize,
    pub kind: String,
    pub payload: String,
}

impl FoundBlock {
    /// The block that was found.
    pub open spec fn is(&self, b: Block) -> bool {
        self.start == b.start && self.kind@ == b.kind && self.payload@ == b.payload
    }
}

fn spaces_from(v: &Vec<char>, i: usize) -> (n: usize)
    requires
        i <= v.len(),
    ensures
        n == space_run(v@, i as int),
        i + n <= v.len(),
{
    let mut n: usize = 0;
    while i + n < v.len() && text::space(v[i + n])
        invariant
            i + n <= v.len(),
            space_run(v@, i as int) == n + space_run(v@, i + n),
        decreases v.len() - (i + n),
    {
        n = n + 1;
    }
    n
}

fn kind_from(v: &Vec<char>, i: usize) -> (n: usize)
    requires
        i <= v.len(),
    ensures
        n == kind_run(v@, i as int),
        i + n <= v.len(),
{
    let mut n: usize = 0;
    while i + n < v.len() && (('a' <= v[i + n] && v[i + n] <= 'z') || v[i + n] == '-')
        invariant
            i + n <= v.len(),
            kind_run(v@, i as int) == n + kind_run(v@, i + n),
        decreases v.len() - (i + n),
    {
        n = n + 1;
    }
    n
}

fn break_before(v: &Vec<char>, i: usize, n: usize) -> (r: Option<usize>)
    requires
        i + n <= v.len(),
    ensures
        match r {
            Some(p) => last_break(v@, i as int, n as nat) == Some(p as int) && p <= v.len(),
            None => last_break(v@, i as int, n as nat) is None,
        },
{
    let mut m: usize = n;
    while m > 0
        invariant
            m <= n,
            i + n <= v.len(),
            last_break(v@, i as int, n as nat) == last_break(v@, i as int, m as nat),
        decreases m,
    {
        if v[i + m - 1] == '\n' {
            return Some(i + m);
        }
        m = m - 1;
    }
    None
}

/// The block at position `i`.
fn match_block(v: &Vec<char>, i: usize) -> (r: Option<FoundBlock>)
    requires
        i < v.len(),
    ensures
        match r {
            Some(b) => block_at(v@, i as int) matches Some(m) && b.is(m),
            None => block_at(v@, i as int) is None,
        },
{
    proof {
        reveal_strlit("<!--");
        reveal_strlit("polyresearch:");
    }
    if !text::stands_at(v, &text::chars_of("<!--"), i) {
        return None;
    }
    let mark: usize = i + 4 + spaces_from(v, i + 4);
    if !text::stands_at(v, &text::chars_of("polyresearch:"), mark) {
        return None;
    }
    let from: usize = mark + 13;
    let to: usize = from + kind_from(v, from);
    if from == to {
        return None;
    }
    match break_before(v, to, spaces_from(v, to)) {
        Some(p) => {
            proof {
                lemma_last_break(v@, to as int, space_run(v@, to as int));
                text::lemma_find_from(v@, "-->"@, p as int);
            }
            match text::position(v, &text::chars_of("-->"), p) {
                Some(e) => Some(
                    FoundBlock {
                        start: i,
                        kind: text::string_of(v, from, to),
                        payload: text::string_of(v, p, e),
                    },
                ),
                None => None,
            }
        },
        None => None,
    }
}

/// The first block of a text.
pub fn find_block(s: &str) -> (r: Option<FoundBlock>)
    ensures
        match r {
            Some(b) => first_block(s@, 0) matches Some(m) && b.is(m) && b.start < s@.len(),
            None => first_block(s@, 0) is None,
        },
{
    let v: Vec<char> = text::chars_of(s);
    let mut i: usize = 0;
    while i < v.len()
        invariant
            i <= v.len(),
            v@ == s@,
            first_block(s@, 0) == first_block(s@, i as int),
        decreases v.len() - i,
    {
        match match_block(&v, i) {
            Some(b) => {
                return Some(b);
            },
            None => {},
        }
        i = i + 1;
    }
    None
}

/// The field that a line gives: what stands on the two sides of its first colon.
pub open spec fn line_field(line: Seq<char>) -> Option<(Seq<char>, Seq<char>)> {
    match text::cut(text::trimmed(line), ":"@) {
        Some((k, v)) => Some((text::trimmed(k), text::trimmed(v))),
        None => None,
    }
}

/// The fields that lines give, in their order.
pub open spec fn line_fields(lines: Seq<Seq<char>>) -> Seq<(Seq<char>, Seq<char>)>
    decreases lines.len(),
{
    if lines.len() == 0 {
        Seq::empty()
    } else {
        let before = line_fields(lines.drop_last());
        match line_field(lines.last()) {
            Some(f) => before.push(f),
            None => before,
        }
    }
}

/// The fields of a block.
pub open spec fn fields_of(payload: Seq<char>) -> Seq<(Seq<char>, Seq<char>)> {
    line_fields(text::lines_of(payload))
}

/// The value of a field. Of two fields with one name the later counts.
pub open spec fn field(fields: Seq<(Seq<char>, Seq<char>)>, key: Seq<char>) -> Option<Seq<char>>
    decreases fields.len(),
{
    if fields.len() == 0 {
        None
    } else if fields.last().0 == key {
        Some(fields.last().1)
    } else {
        field(fields.drop_last(), key)
    }
}

/// The contents of a list of fields.
pub open spec fn field_views(v: Seq<(String, String)>) -> Seq<(Seq<char>, Seq<char>)> {
    v.map_values(|p: (String, String)| (p.0@, p.1@))
}

/// The fields of a block.
pub fn parse_fields(payload: &str) -> (r: Vec<(String, String)>)
    ensures
        field_views(r@) == fields_of(payload@),
{
    let lines: Vec<String> = text::lines(payload);
    let ghost all = text::texts(lines@);
    let mut r: Vec<(String, String)> = Vec::new();
    let mut i: usize = 0;
    assert(all.take(0).len() == 0);
    while i < lines.len()
        invariant
            i <= lines.len(),
            all == text::texts(lines@),
            field_views(r@) == line_fields(all.take(i as int)),
        decreases lines.len() - i,
    {
        let line = text::trim(lines[i].as_str());
        proof {
            assert(all.take(i + 1).drop_last() == all.take(i as int));
            assert(all.take(i + 1).last() == lines@[i as int]@);
        }
        let ghost before = r@;
        match text::split_once(line, ":") {
            Some((k, v)) => {
                r.push((text::trim(k).to_owned(), text::trim(v).to_owned()));
                assert(field_views(r@) == field_views(before).push(
                    (text::trimmed(k@), text::trimmed(v@)),
                ));
            },
            None => {},
        }
        i = i + 1;
    }
    assert(all.take(i as int) == all);
    r
}

/// The value of a field.
pub fn lookup(fields: &Vec<(String, String)>, key: &str) -> (r: Option<String>)
    ensures
        match r {
            Some(v) => field(field_views(fields@), key@) == Some(v@),
            None => field(field_views(fields@), key@) is None,
        },
{
    let ghost all = field_views(fields@);
    let mut n: usize = fields.len();
    assert(all.take(n as int) == all);
    while n > 0
        invariant
            n <= fields.len(),
            all == field_views(fields@),
            field(all, key@) == field(all.take(n as int), key@),
        decreases n,
    {
        assert(all.take(n as int).drop_last() == all.take(n - 1));
        assert(all.take(n as int).last() == (fields@[n - 1].0@, fields@[n - 1].1@));
        if text::same(fields[n - 1].0.as_str(), key) {
            return Some(fields[n - 1].1.clone());
        }
        n = n - 1;
    }
    None
}

/// The line before a block quotes another comment.
pub open spec fn quoted(before: Seq<char>) -> bool {
    let line = text::trimmed_start(text::after_last(before, '\n'));
    line.len() > 0 && line[0] == '>'
}

/// The readable text between the first line and the block.
pub open spec fn visible_body(before: Seq<char>) -> Option<Seq<char>> {
    match text::cut(text::trimmed_end(before), "\n\n"@) {
        Some((_, rest)) => if text::trimmed(rest).len() > 0 {
            Some(text::trimmed(rest))
        } else {
            None
        },
        None => None,
    }
}

/// Whether the line before a block quotes another comment.
pub fn is_quoted(before: &str) -> (r: bool)
    ensures
        r == quoted(before@),
{
    let line = text::last_part(before, '\n');
    let head: Vec<char> = text::chars_of(text::trim_start(line.as_str()));
    head.len() > 0 && head[0] == '>'
}

/// The readable text between the first line and the block.
pub fn extract_visible_body(before: &str) -> (r: Option<String>)
    ensures
        match r {
            Some(t) => visible_body(before@) == Some(t@),
            None => visible_body(before@) is None,
        },
{
    match text::split_once(text::trim_end(before), "\n\n") {
        Some((_, rest)) => {
            let body = text::trim(rest);
            if body.unicode_len() > 0 {
                Some(body.to_owned())
            } else {
                None
            }
        },
        None => None,
    }
}

/// The lines of the fields.
pub open spec fn fields_text(fields: Seq<(Seq<char>, Seq<char>)>) -> Seq<char>
    decreases fields.len(),
{
    if fields.len() == 0 {
        Seq::empty()
    } else {
        fields_text(fields.drop_last()) + fields.last().0 + ": "@ + fields.last().1 + "\n"@
    }
}

/// What stands before the block of a comment.
pub open spec fn head_text(summary: Seq<char>, body: Option<Seq<char>>) -> Seq<char> {
    match body {
        Some(b) => summary + "\n\n"@ + b + "\n\n"@,
        None => summary + "\n\n"@,
    }
}

/// A comment: the readable head and the block.
pub open spec fn block_text(
    summary: Seq<char>,
    body: Option<Seq<char>>,
    kind: Seq<char>,
    fields: Seq<(Seq<char>, Seq<char>)>,
) -> Seq<char> {
    head_text(summary, body) + "<!-- polyresearch:"@ + kind + "\n"@ + fields_text(fields) + "-->"@
}

/// Writes a comment.
pub fn render_block(
    summary: &str,
    body: Option<String>,
    kind: &str,
    fields: &Vec<(String, String)>,
) -> (r: String)
    ensures
        r@ == block_text(
            summary@,
            match body {
                Some(b) => Some(b@),
                None => None,
            },
            kind@,
            field_views(fields@),
        ),
{
    let mut r = summary.to_owned();
    r.append("\n\n");
    match body {
        Some(b) => {
            r.append(b.as_str());
            r.append("\n\n");
        },
        None => {},
    }
    r.append("<!-- polyresearch:");
    r.append(kind);
    r.append("\n");
    let mut lines = String::new();
    let ghost all = field_views(fields@);
    let mut i: usize = 0;
    assert(all.take(0).len() == 0);
    while i < fields.len()
        invariant
            i <= fields.len(),
            all == field_views(fields@),
            lines@ == fields_text(all.take(i as int)),
        decreases fields.len() - i,
    {
        assert(all.take(i + 1).drop_last() == all.take(i as int));
        assert(all.take(i + 1).last() == (fields@[i as int].0@, fields@[i as int].1@));
        lines.append(fields[i].0.as_str());
        lines.append(": ");
        lines.append(fields[i].1.as_str());
        lines.append("\n");
        i = i + 1;
    }
    assert(all.take(i as int) == all);
    r.append(lines.as_str());
    r.append("-->");
    r
}

/// A value that fits on the line of a field: no line break, and no white space at its ends.
pub open spec fn tidy(v: Seq<char>) -> bool {
    &&& text::trimmed(v) == v
    &&& forall|i: int| 0 <= i < v.len() ==> v[i] != '\n'
}

/// The name of a field: small letters and underscores.
pub open spec fn is_key(k: Seq<char>) -> bool {
    &&& k.len() > 0
    &&& forall|i: int| 0 <= i < k.len() ==> ('a' <= #[trigger] k[i] <= 'z') || k[i] == '_'
}

/// Fields that can be read back: proper names and values that fit on a line.
pub open spec fn proper(fields: Seq<(Seq<char>, Seq<char>)>) -> bool {
    forall|i: int| 0 <= i < fields.len() ==> is_key((#[trigger] fields[i]).0) && tidy(fields[i].1)
}

/// The line of a field gives the field back.
pub proof fn lemma_line_field(k: Seq<char>, v: Seq<char>)
    requires
        is_key(k),
        tidy(v),
    ensures
        line_field(k + ": "@ + v) == Some((k, v)),
        text::without_return(k + ": "@ + v) == k + ": "@ + v,
        forall|i: int| 0 <= i < (k + ": "@ + v).len() ==> (k + ": "@ + v)[i] != '\n',
{
    reveal_strlit(": ");
    reveal_strlit(":");
    let line = k + ": "@ + v;
    let n = k.len() as int;
    assert(": "@ == seq![':', ' ']);
    assert(":"@ == seq![':']);
    assert(!text::is_space(k[0])) by {
        assert(('a' <= k[0] <= 'z') || k[0] == '_');
    }
    text::lemma_trimmed_ends(v);
    assert forall|i: int| 0 <= i < line.len() implies line[i] != '\n' by {
        if i < n {
            assert(line[i] == k[i]);
        } else if i >= n + 2 {
            assert(line[i] == v[i - n - 2]);
        }
    }
    let t = text::trimmed(line);
    if v.len() > 0 {
        assert(line[0] == k[0]);
        assert(line.last() == v.last());
        text::lemma_trimmed_already(line);
    } else {
        assert(line.last() == ' ');
        assert(line[0] == k[0]);
        let short = k.push(':');
        assert(line.drop_last() == short);
        assert(text::trimmed_start(line) == line);
        assert(!text::is_space(short.last()));
        assert(text::trimmed_end(line) == text::trimmed_end(short));
        assert(t == short);
    }
    assert(text::occurs_at(t, ":"@, n)) by {
        assert(t.subrange(n, n + 1) == seq![':']);
    }
    assert forall|j: int| 0 <= j < n implies !text::occurs_at(t, ":"@, j) by {
        assert(t[j] == k[j]);
        assert(t.subrange(j, j + 1)[0] == k[j]);
    }
    text::lemma_found_at(t, ":"@, 0, n);
    assert(t.take(n) == k);
    assert(k.last() == k[n - 1]);
    text::lemma_trimmed_already(k);
    if v.len() > 0 {
        assert(t.skip(n + 1) == seq![' '] + v);
        text::lemma_trim_blank(v);
    } else {
        assert(t.skip(n + 1) == v);
    }
}

/// The lines of fields give the fields back.
pub proof fn lemma_fields_read_back(fields: Seq<(Seq<char>, Seq<char>)>)
    requires
        proper(fields),
    ensures
        fields_of(fields_text(fields)) == fields,
        fields_text(fields).len() == 0 || fields_text(fields).last() == '\n',
        fields.len() > 0 ==> fields_text(fields).len() > 0 && fields_text(fields)[0]
            == fields[0].0[0],
    decreases fields.len(),
{
    reveal_strlit("\n");
    if fields.len() == 0 {
        assert(text::lines_of(fields_text(fields)) == Seq::<Seq<char>>::empty());
        assert(fields_of(fields_text(fields)) == fields);
    } else {
        let rest = fields.drop_last();
        let (k, v) = fields.last();
        lemma_fields_read_back(rest);
        let a = fields_text(rest);
        let line = k + ": "@ + v;
        assert(is_key(k) && tidy(v)) by {
            assert(is_key(fields[fields.len() - 1].0));
        }
        lemma_line_field(k, v);
        assert(fields_text(fields) == a + line.push('\n'));
        text::lemma_lines_apart(a, line.push('\n'));
        text::lemma_one_line(line);
        let lines = text::lines_of(fields_text(fields));
        assert(lines.drop_last() == text::lines_of(a));
        assert(lines.last() == line);
        assert(fields_of(fields_text(fields)) == rest.push((k, v)));
        assert(rest.push((k, v)) == fields);
        if rest.len() == 0 {
            assert(fields_text(fields)[0] == line[0]);
        } else {
            assert(fields_text(fields)[0] == a[0]);
        }
    }
}

/// A written comment gives its block back: its kind and the text of its fields.
#[verifier::spinoff_prover]
#[verifier::rlimit(60)]
pub proof fn lemma_block_read_back(
    summary: Seq<char>,
    body: Option<Seq<char>>,
    kind: Seq<char>,
    fields: Seq<(Seq<char>, Seq<char>)>,
)
    requires
        kind.len() > 0,
        forall|i: int| 0 <= i < kind.len() ==> is_kind_char(#[trigger] kind[i]),
        proper(fields),
        !text::holds(fields_text(fields), "-->"@),
        forall|i: int|
            0 <= i < head_text(summary, body).len() ==> #[trigger] header_at(
                block_text(summary, body, kind, fields),
                i,
            ) is None,
    ensures
        first_block(block_text(summary, body, kind, fields), 0) == Some(
            Block {
                start: head_text(summary, body).len() as int,
                kind,
                payload: fields_text(fields),
            },
        ),
        !quoted(head_text(summary, body)),
{
    reveal_strlit("<!-- polyresearch:");
    reveal_strlit("<!--");
    reveal_strlit("polyresearch:");
    reveal_strlit("\n");
    reveal_strlit("\n\n");
    reveal_strlit("-->");
    let s = block_text(summary, body, kind, fields);
    let head = head_text(summary, body);
    let payload = fields_text(fields);
    let h = head.len() as int;
    lemma_fields_read_back(fields);
    assert(head[h - 1] == '\n');
    assert(text::after_last(head, '\n') == Seq::<char>::empty());
    assert(s.len() == h + 18 + kind.len() + 1 + payload.len() + 3);
    assert(s.subrange(h, h + 4) == "<!--"@);
    assert(s[h + 4] == ' ');
    assert(s[h + 5] == 'p');
    assert(space_run(s, h + 5) == 0);
    assert(space_run(s, h + 4) == 1);
    assert(s.subrange(h + 5, h + 18) == "polyresearch:"@);
    let from = h + 18;
    let to = from + kind.len();
    assert(s.subrange(from, to) == kind);
    assert(s[to] == '\n');
    assert forall|i: int| from <= i < to implies is_kind_char(#[trigger] s[i]) by {
        assert(s[i] == kind[i - from]);
    }
    lemma_kind_whole(s, from, to);
    let p = to + 1;
    if fields.len() > 0 {
        assert(s[p] == payload[0]);
        assert(is_key(fields[0].0));
    } else {
        assert(s[p] == '-');
    }
    assert(space_run(s, p) == 0);
    assert(space_run(s, to) == 1);
    assert(last_break(s, to, 1) == Some(p));
    let e = p + payload.len();
    assert(s.subrange(e, e + 3) == "-->"@);
    assert forall|j: int| p <= j < e implies !text::occurs_at(s, "-->"@, j) by {
        if text::occurs_at(s, "-->"@, j) {
            assert(s.subrange(j, j + 3)[0] == s[j]);
            assert(s.subrange(j, j + 3)[1] == s[j + 1]);
            assert(s.subrange(j, j + 3)[2] == s[j + 2]);
            assert(s[e - 1] == payload.last());
            if j + 3 <= e {
                assert(payload.subrange(j - p, j - p + 3) == s.subrange(j, j + 3));
                text::lemma_find_from(payload, "-->"@, 0);
                assert(text::occurs_at(payload, "-->"@, j - p));
            }
        }
    }
    text::lemma_found_at(s, "-->"@, p, e);
    assert(s.subrange(p, e) == payload);
    assert(block_at(s, h) == Some(Block { start: h, kind, payload }));
    lemma_first_block(s, 0, h);
}

proof fn lemma_kind_whole(s: Seq<char>, from: int, to: int)
    requires
        0 <= from <= to < s.len(),
        !is_kind_char(s[to]),
        forall|i: int| from <= i < to ==> is_kind_char(#[trigger] s[i]),
    ensures
        kind_run(s, from) == to - from,
    decreases to - from,
{
    if from < to {
        lemma_kind_whole(s, from + 1, to);
    }
}

proof fn lemma_first_block(s: Seq<char>, i: int, h: int)
    requires
        0 <= i <= h < s.len(),
        block_at(s, h) is Some,
        forall|j: int| i <= j < h ==> #[trigger] header_at(s, j) is None,
    ensures
        first_block(s, i) == block_at(s, h),
    decreases h - i,
{
    if i < h {
        assert(header_at(s, i) is None);
        lemma_first_block(s, i + 1, h);
    }
}

/// No header starts in a line that ends with a full stop.
pub proof fn lemma_no_header_in_line(s: Seq<char>, line: Seq<char>, i: int)
    requires
        line.len() > 0,
        line.last() == '.',
        forall|j: int| 0 <= j < line.len() ==> line[j] != '\n',
        line.len() + 2 <= s.len(),
        s.take(line.len() as int) == line,
        s[line.len() as int] == '\n',
        s[(line.len() + 1) as int] == '\n',
        0 <= i < line.len() + 2,
    ensures
        header_at(s, i) is None,
{
    reveal_strlit("<!--");
    reveal_strlit("polyresearch:");
    let stop = line.len() - 1;
    assert forall|j: int| 0 <= j <= stop implies s[j] == line[j] by {
        assert(s.take(line.len() as int)[j] == s[j]);
    }
    if header_at(s, i) is Some {
        let mark = i + 4 + space_run(s, i + 4);
        let from = mark + 13;
        let to = from + kind_run(s, from);
        assert(s.subrange(i, i + 4) == "<!--"@);
        assert("<!--"@[0] == s[i]);
        assert("<!--"@[1] == s[i + 1]);
        assert("<!--"@[2] == s[i + 2]);
        assert("<!--"@[3] == s[i + 3]);
        assert(i + 4 <= stop);
        lemma_run_stops(s, i + 4, stop);
        assert(s.subrange(mark, mark + 13) == "polyresearch:"@);
        if mark + 12 >= stop {
            assert(s.subrange(mark, mark + 13)[stop - mark] == '.');
            assert("polyresearch:"@[stop - mark] == '.');
        }
        lemma_kind_stops(s, from, stop);
        lemma_run_stops(s, to, stop);
        lemma_last_break(s, to, space_run(s, to));
    }
}

proof fn lemma_run_stops(s: Seq<char>, i: int, stop: int)
    requires
        0 <= i <= stop < s.len(),
        !text::is_space(s[stop]),
    ensures
        i + space_run(s, i) <= stop,
    decreases stop - i,
{
    if i < stop && text::is_space(s[i]) {
        lemma_run_stops(s, i + 1, stop);
    }
}

proof fn lemma_kind_stops(s: Seq<char>, i: int, stop: int)
    requires
        0 <= i <= stop < s.len(),
        !is_kind_char(s[stop]),
    ensures
        i + kind_run(s, i) <= stop,
    decreases stop - i,
{
    if i < stop && is_kind_char(s[i]) {
        lemma_kind_stops(s, i + 1, stop);
    }
}

/// The value of a field that no later field overrides.
pub proof fn lemma_field_at(fields: Seq<(Seq<char>, Seq<char>)>, i: int)
    requires
        0 <= i < fields.len(),
        forall|j: int| i < j < fields.len() ==> (#[trigger] fields[j]).0 != fields[i].0,
    ensures
        field(fields, fields[i].0) == Some(fields[i].1),
    decreases fields.len(),
{
    if i < fields.len() - 1 {
        let rest = fields.drop_last();
        assert(fields[fields.len() - 1].0 != fields[i].0);
        assert forall|j: int| i < j < rest.len() implies (#[trigger] rest[j]).0 != rest[i].0 by {
            assert(fields[j].0 != fields[i].0);
        }
        lemma_field_at(rest, i);
    }
}

/// A field that is not there.
pub proof fn lemma_no_field(fields: Seq<(Seq<char>, Seq<char>)>, key: Seq<char>)
    requires
        forall|j: int| 0 <= j < fields.len() ==> (#[trigger] fields[j]).0 != key,
    ensures
        field(fields, key) is None,
    decreases fields.len(),
{
    if fields.len() > 0 {
        assert(fields[fields.len() - 1].0 != key);
        let rest = fields.drop_last();
        assert forall|j: int| 0 <= j < rest.len() implies (#[trigger] rest[j]).0 != key by {
            assert(fields[j].0 != key);
        }
        lemma_no_field(rest, key);
    }
}

} // verus!
