//! What holds of setting a project and a node up.
use crate::cli::NodeOverrides;
use crate::commands;
use crate::commands::bootstrap;
use crate::commands::bootstrap::CloneStep;
use crate::commands::init;
use crate::commands::resume;
use crate::commands::resume::WorktreeStep;
use crate::commands::ThesisWorkspace;
use crate::config::NodeConfig;
use crate::github;
use crate::github::RepoRef;
use crate::laws::texts::stands;
use crate::text;
use vstd::prelude::*;

verus! {

/// What is there is not had again; what is not to be forked is not forked, and what is to be forked
/// is forked to the owner that was given.
pub proof fn how_a_repository_is_had(
    url: &str,
    no_fork: bool,
    fork: Option<String>,
    exists: bool,
    r: Result<CloneStep, String>,
)
    requires
        call_ensures(bootstrap::clone_step, (url, no_fork, &fork, exists), r),
    ensures
        exists ==> r is Ok && (r->Ok_0 is Fetch || r->Ok_0 is Skip),
        !exists && r is Ok ==> !(r->Ok_0 is Fetch) && !(r->Ok_0 is Skip),
        no_fork ==> r is Ok && !(r->Ok_0 is Fork) && !(r->Ok_0 is AskAccess),
        no_fork && !exists ==> r->Ok_0 is Clone,
        !no_fork && !exists && fork is Some ==> r is Ok && (r->Ok_0 matches CloneStep::Fork {
            owner,
        } && owner@ == fork->Some_0@),
        !no_fork && !exists && fork is None ==> r is Err || r->Ok_0 is AskAccess,
{
}

/// A repository that may be pushed to is cloned, and another one is forked to who asks; without
/// knowing who asks nothing is done.
pub proof fn what_may_not_be_pushed_to_is_forked(
    may_push: bool,
    login: Result<String, String>,
    r: Result<CloneStep, String>,
)
    requires
        call_ensures(bootstrap::after_access, (may_push, login), r),
    ensures
        may_push ==> r is Ok && r->Ok_0 is Clone,
        !may_push && login is Ok ==> r is Ok && (r->Ok_0 matches CloneStep::Fork { owner }
            && owner@ == login->Ok_0@),
        !may_push && login is Err ==> r is Err,
{
}

/// Only the answer `true` is a yes, and a login is an answer that is not blank.
pub proof fn how_the_host_answers(
    output: &str,
    trimmed: &str,
    access: bool,
    login: Result<String, String>,
)
    requires
        call_ensures(text::trim, (output,), trimmed),
        call_ensures(bootstrap::has_push_access, (output,), access),
        call_ensures(bootstrap::login_in, (output,), login),
    ensures
        access <==> trimmed@ == "true"@,
        login is Ok <==> trimmed@.len() > 0,
        login matches Ok(l) ==> l@ == trimmed@,
{
}

/// A fork goes to another owner than who asks only by naming that owner.
pub proof fn where_a_fork_goes(url: &str, owner: &str, user: &str, r: Vec<String>)
    requires
        call_ensures(bootstrap::fork_args, (url, owner, user), r),
    ensures
        4 <= r@.len() <= 5,
        r@[0]@ == "repo"@,
        r@[1]@ == "fork"@,
        r@[2]@ == url@,
        r@[3]@ == "--clone=false"@,
        r@.len() == 5 <==> user@.len() > 0 && user@ != owner@,
        r@.len() == 5 ==> r@[4]@ == "--org="@ + owner@,
{
    let all = text::texts(r@);
    assert(all.len() == r@.len());
    assert(all[0] == r@[0]@);
    assert(all[1] == r@[1]@);
    assert(all[2] == r@[2]@);
    assert(all[3] == r@[3]@);
    if r@.len() == 5 {
        assert(all[4] == r@[4]@);
    }
}

/// A fork that failed is no hindrance only where it was there before.
pub proof fn when_a_fork_is_there(
    succeeded: bool,
    stderr: &str,
    note: &str,
    told: bool,
    r: Result<(), String>,
)
    requires
        call_ensures(bootstrap::ensure_forked, (succeeded, stderr), r),
        note@ == "already exists"@,
        call_ensures(text::contains, (stderr, note), told),
    ensures
        r is Ok <==> succeeded || told,
{
}

/// Settings are saved exactly where the command line gives one.
pub proof fn when_settings_are_saved(o: NodeOverrides, r: bool)
    requires
        call_ensures(bootstrap::has_overrides, (&o,), r),
    ensures
        !r <==> o.capacity is None && o.api_budget is None && o.request_delay is None
            && o.agent_command is None,
{
}

/// A completed program file holds each section that it must have, keeps what it held, and is not
/// changed by completing it again.
pub proof fn a_completed_program_is_complete(
    contents: &str,
    once: String,
    again: &str,
    twice: String,
)
    requires
        call_ensures(bootstrap::normalize_program_md, (contents,), once),
        again@ == once@,
        call_ensures(bootstrap::normalize_program_md, (again,), twice),
    ensures
        twice@ == once@,
        contents@.len() <= once@.len(),
        once@.take(contents@.len() as int) == contents@,
        exists|i: int| #[trigger] stands(once@, "## Goal"@, i),
        exists|i: int| #[trigger] stands(once@, "## What you CAN modify"@, i),
        exists|i: int| #[trigger] stands(once@, "## What you CANNOT modify"@, i),
{
    bootstrap::completing_twice_changes_nothing(contents@);
    lemma_held(once@, "## Goal"@);
    lemma_held(once@, "## What you CAN modify"@);
    lemma_held(once@, "## What you CANNOT modify"@);
}

proof fn lemma_held(s: Seq<char>, p: Seq<char>)
    requires
        text::holds(s, p),
    ensures
        exists|i: int| #[trigger] stands(s, p, i),
{
    text::lemma_find_from(s, p, 0);
    let i = text::find_from(s, p, 0)->Some_0;
    assert forall|k: int| 0 <= k < p.len() implies s[i + k] == #[trigger] p[k] by {
        assert(s.subrange(i, i + p.len())[k] == s[i + k]);
    }
    assert(stands(s, p, i));
}

/// A goal takes the place of what stands under the goal's heading, up to the next heading or the
/// end; all else stays. A template without the heading stays as it is.
pub proof fn a_goal_takes_its_place(
    template: &str,
    goal: &str,
    a: Seq<char>,
    b: Seq<char>,
    rest: Seq<char>,
    r: String,
)
    requires
        call_ensures(bootstrap::replace_goal_section, (template, goal), r),
    ensures
        (template@ == a + "## Goal\n"@ + b + rest && (forall|i: int|
            0 <= i < a.len() ==> !#[trigger] stands(template@, "## Goal\n"@, i)) && (forall|i: int|
            0 <= i < b.len() ==> !#[trigger] stands(b + rest, "\n## "@, i)) && (rest.len() == 0
            || stands(rest, "\n## "@, 0))) ==> r@ == a + "## Goal\n"@ + "\n"@ + goal@ + "\n"@
            + rest,
        (forall|i: int| !#[trigger] stands(template@, "## Goal\n"@, i)) ==> r@ == template@,
{
    let s = template@;
    let h = "## Goal\n"@;
    let p = "\n## "@;
    assert forall|i: int| #[trigger] stands(s, h, i) <==> text::occurs_at(s, h, i) by {
        lemma_stands(s, h, i);
    }
    if s == a + h + b + rest && (forall|i: int|
        0 <= i < a.len() ==> !#[trigger] stands(s, h, i)) && (forall|i: int|
        0 <= i < b.len() ==> !#[trigger] stands(b + rest, p, i)) && (rest.len() == 0 || stands(
        rest,
        p,
        0,
    )) {
        let n = a.len() as int;
        assert(s.subrange(n, n + h.len()) =~= h);
        assert forall|j: int| 0 <= j < n implies !text::occurs_at(s, h, j) by {
            assert(!stands(s, h, j));
        }
        text::lemma_found_at(s, h, 0, n);
        let from = n + h.len();
        let to = from + b.len();
        assert(s.take(from) =~= a + h);
        assert(s.skip(to) =~= rest);
        reveal_strlit("\n## ");
        assert(p.len() == 4);
        assert forall|j: int| from <= j < to implies !text::occurs_at(s, p, j) by {
            if text::occurs_at(s, p, j) {
                lemma_stands(s, p, j);
                assert(stands(b + rest, p, j - from)) by {
                    assert forall|k: int| 0 <= k < p.len() implies (b + rest)[j - from + k]
                        == #[trigger] p[k] by {
                        assert(s[j + k] == (b + rest)[j - from + k]);
                    }
                }
            }
        }
        if rest.len() == 0 {
            assert forall|j: int| from <= j implies !text::occurs_at(s, p, j) by {}
            text::lemma_not_found(s, p, from);
        } else {
            assert(stands(s, p, to)) by {
                assert forall|k: int| 0 <= k < p.len() implies s[to + k] == #[trigger] p[k] by {
                    assert(s[to + k] == rest[0 + k]);
                }
            }
            lemma_stands(s, p, to);
            text::lemma_found_at(s, p, from, to);
        }
        assert(r@ =~= a + h + "\n"@ + goal@ + "\n"@ + rest);
    }
    if forall|i: int| !#[trigger] stands(s, h, i) {
        assert forall|j: int| 0 <= j implies !text::occurs_at(s, h, j) by {
            assert(!stands(s, h, j));
        }
        text::lemma_not_found(s, h, 0);
    }
}

proof fn lemma_stands(s: Seq<char>, p: Seq<char>, i: int)
    ensures
        stands(s, p, i) <==> text::occurs_at(s, p, i),
{
    if stands(s, p, i) {
        assert(s.subrange(i, i + p.len()) =~= p);
    }
    if text::occurs_at(s, p, i) {
        assert forall|k: int| 0 <= k < p.len() implies s[i + k] == #[trigger] p[k] by {
            assert(s.subrange(i, i + p.len())[k] == s[i + k]);
        }
    }
}

/// The two parts name a repository: neither is empty or holds a slash, the second does not end in
/// `.git`, and no blank stands at its end.
pub open spec fn names_a_repository(owner: Seq<char>, name: Seq<char>) -> bool {
    &&& owner.len() > 0
    &&& name.len() > 0
    &&& forall|i: int| 0 <= i < owner.len() ==> #[trigger] owner[i] != '/'
    &&& forall|i: int| 0 <= i < name.len() ==> #[trigger] name[i] != '/'
    &&& !exists|a: Seq<char>| name == a + ".git"@
    &&& !text::is_space(name.last())
}

proof fn lemma_parts(owner: Seq<char>, name: Seq<char>)
    requires
        names_a_repository(owner, name),
    ensures
        github::repo_parts(owner + "/"@ + name) == Some((owner, name)),
{
    reveal_strlit("/");
    let v = owner + "/"@ + name;
    let n = owner.len() as int;
    assert(v.subrange(n, n + 1) =~= "/"@);
    assert forall|j: int| 0 <= j < n implies !text::occurs_at(v, "/"@, j) by {
        assert(v.subrange(j, j + 1)[0] == owner[j]);
    }
    text::lemma_found_at(v, "/"@, 0, n);
    assert(v.take(n) =~= owner);
    assert(v.skip(n + 1) =~= name);
    assert forall|j: int| 0 <= j implies !text::occurs_at(name, "/"@, j) by {
        if text::occurs_at(name, "/"@, j) {
            assert(name.subrange(j, j + 1)[0] == name[j]);
        }
    }
    text::lemma_not_found(name, "/"@, 0);
}

proof fn lemma_bare(start: Seq<char>, owner: Seq<char>, name: Seq<char>, url: Seq<char>)
    requires
        names_a_repository(owner, name),
        start.len() > 0,
        !text::is_space(start[0]),
        url == start + owner + "/"@ + name || url == start + owner + "/"@ + name + ".git"@,
    ensures
        github::bare_address(url) == start + owner + "/"@ + name,
{
    reveal_strlit("/");
    reveal_strlit(".git");
    let x = start + owner + "/"@ + name;
    let g = ".git"@;
    assert(url[0] == start[0]);
    assert(x.last() == name.last());
    assert(!text::is_space(url.last()));
    text::lemma_trimmed_already(url);
    assert(!text::ends(x, g)) by {
        if text::ends(x, g) {
            let tail = x.skip(x.len() - 4);
            assert(tail == g);
            if name.len() >= 4 {
                let a = name.take(name.len() - 4);
                assert(name =~= a + g) by {
                    assert forall|k: int| 0 <= k < 4 implies name[name.len() - 4 + k]
                        == #[trigger] g[k] by {
                        assert(tail[k] == x[x.len() - 4 + k]);
                    }
                }
            } else {
                let k = 3 - name.len();
                assert(tail[k] == x[x.len() - 4 + k]);
                assert(x[x.len() - 4 + k] == '/');
                assert(g[k] != '/');
            }
        }
    }
    assert(text::without_suffixes(x, g) == x);
    if url != x {
        assert(url =~= x + g);
        assert(url.skip(url.len() - 4) =~= g);
        assert(url.take(url.len() - 4) =~= x);
        assert(text::ends(url, g));
    }
}

proof fn lemma_no_trailing(owner: Seq<char>, name: Seq<char>)
    requires
        names_a_repository(owner, name),
    ensures
        text::without_trailing(owner + "/"@ + name, '/') == owner + "/"@ + name,
{
    assert((owner + "/"@ + name).last() == name.last());
    assert(name[name.len() - 1] != '/');
}

/// An address on the host, in the form for browsers, that for cloning and that for keys, names the
/// repository whose owner and name it holds; so does the short form. Blanks and a `.git` at the end
/// change nothing.
pub proof fn an_address_names_its_repository(
    owner: Seq<char>,
    name: Seq<char>,
    url: &str,
    r: Option<RepoRef>,
    s: Result<RepoRef, String>,
)
    requires
        names_a_repository(owner, name),
        !text::is_space(owner[0]),
        call_ensures(RepoRef::parse_url, (url,), r),
        call_ensures(RepoRef::from_user_input, (url,), s),
    ensures
        (url@ == "https://github.com/"@ + owner + "/"@ + name || url@ == "https://github.com/"@
            + owner + "/"@ + name + ".git"@ || url@ == "git@github.com:"@ + owner + "/"@ + name
            || url@ == "git@github.com:"@ + owner + "/"@ + name + ".git"@) ==> r is Some
            && r->Some_0.owner@ == owner && r->Some_0.name@ == name && s is Ok
            && s->Ok_0.owner@ == owner && s->Ok_0.name@ == name,
{
    reveal_strlit("https://github.com/");
    reveal_strlit("https://www.github.com/");
    reveal_strlit("http://www.github.com/");
    reveal_strlit("http://github.com/");
    reveal_strlit("git@github.com:");
    let web = "https://github.com/"@;
    let key = "git@github.com:"@;
    let tail = owner + "/"@ + name;
    lemma_parts(owner, name);
    lemma_no_trailing(owner, name);
    if url@ == web + owner + "/"@ + name || url@ == web + owner + "/"@ + name + ".git"@ {
        lemma_bare(web, owner, name, url@);
        let t = web + owner + "/"@ + name;
        assert(t =~= web + tail);
        assert(t.take(web.len() as int) =~= web);
        assert(t.skip(web.len() as int) =~= tail);
        assert(!text::begins(t, "https://www.github.com/"@)) by {
            let w = "https://www.github.com/"@;
            if text::begins(t, w) {
                assert(t.take(w.len() as int)[8] == t[8]);
                assert(t[8] == 'g' && w[8] == 'w');
            }
        }
        assert(github::on_host(url@) == Some(tail));
    }
    if url@ == key + owner + "/"@ + name || url@ == key + owner + "/"@ + name + ".git"@ {
        lemma_bare(key, owner, name, url@);
        let t = key + owner + "/"@ + name;
        assert(t =~= key + tail);
        assert(t.take(key.len() as int) =~= key);
        assert(t.skip(key.len() as int) =~= tail);
        assert(t[0] == 'g');
        lemma_other_start(t, "https://www.github.com/"@);
        lemma_other_start(t, "https://github.com/"@);
        lemma_other_start(t, "http://www.github.com/"@);
        lemma_other_start(t, "http://github.com/"@);
        assert(github::on_host(url@) == Some(tail));
    }
}

proof fn lemma_other_start(t: Seq<char>, p: Seq<char>)
    requires
        t.len() > 0,
        p.len() > 0,
        t[0] != p[0],
    ensures
        !text::begins(t, p),
{
    if text::begins(t, p) {
        assert(t.take(p.len() as int)[0] == t[0]);
    }
}

/// The address from which a repository is cloned names that repository.
pub proof fn a_clone_address_is_read_back(
    repo: RepoRef,
    made: String,
    url: &str,
    r: Option<RepoRef>,
    s: Result<RepoRef, String>,
)
    requires
        names_a_repository(repo.owner@, repo.name@),
        !text::is_space(repo.owner@[0]),
        call_ensures(RepoRef::clone_url, (&repo,), made),
        url@ == made@,
        call_ensures(RepoRef::parse_url, (url,), r),
        call_ensures(RepoRef::from_user_input, (url,), s),
    ensures
        r is Some,
        r->Some_0.owner@ == repo.owner@,
        r->Some_0.name@ == repo.name@,
{
    an_address_names_its_repository(repo.owner@, repo.name@, url, r, s);
}

/// The name of a repository's directory and the address of a fork come from the last part of the
/// address.
pub proof fn a_fork_keeps_the_name(
    start: Seq<char>,
    name: Seq<char>,
    url: &str,
    owner: &str,
    dir: String,
    fork: String,
)
    requires
        name.len() > 0,
        forall|i: int| 0 <= i < name.len() ==> #[trigger] name[i] != '/',
        !exists|a: Seq<char>| name == a + ".git"@,
        url@ == start + "/"@ + name || url@ == start + "/"@ + name + ".git"@ || url@ == start + "/"@
            + name + "/"@,
        call_ensures(bootstrap::repo_name_from_url, (url,), dir),
        call_ensures(bootstrap::fork_url, (owner, url), fork),
    ensures
        dir@ == name,
        fork@ == "https://github.com/"@ + owner@ + "/"@ + name + ".git"@,
{
    reveal_strlit("/");
    reveal_strlit(".git");
    let g = ".git"@;
    let x = start + "/"@ + name;
    assert(name[name.len() - 1] != '/');
    assert(text::without_trailing(x, '/') == x);
    if url@ == x + "/"@ {
        assert(url@.last() == '/');
        assert(url@.drop_last() =~= x);
        assert(text::without_trailing(url@, '/') == x);
    } else if url@ == x + g {
        assert(url@.last() == 't');
        assert(text::without_trailing(url@, '/') == url@);
    }
    assert forall|i: int| 0 <= i < g.len() implies #[trigger] g[i] != '/' by {}
    let last = if url@ == x + g {
        name + g
    } else {
        name
    };
    let whole = text::without_trailing(url@, '/');
    assert(whole =~= start + "/"@ + last);
    assert forall|i: int| 0 <= i < last.len() implies #[trigger] last[i] != '/' by {
        if i < name.len() {
            assert(last[i] == name[i]);
        } else {
            assert(last[i] == g[i - name.len()]);
        }
    }
    lemma_after_slash(start, last);
    assert(!text::ends(name, g)) by {
        if text::ends(name, g) {
            let a = name.take(name.len() - g.len());
            assert(name =~= a + g);
        }
    }
    assert(text::without_suffixes(name, g) == name);
    assert((name + g).skip((name + g).len() - g.len()) =~= g);
    assert((name + g).take((name + g).len() - g.len()) =~= name);
    assert(text::without_suffixes(last, g) == name);
}

proof fn lemma_after_slash(start: Seq<char>, last: Seq<char>)
    requires
        forall|i: int| 0 <= i < last.len() ==> #[trigger] last[i] != '/',
    ensures
        text::after_last(start + "/"@ + last, '/') == last,
    decreases last.len(),
{
    reveal_strlit("/");
    let s = start + "/"@ + last;
    if last.len() == 0 {
        assert(s.last() == '/');
        assert(last =~= Seq::empty());
    } else {
        let rest = last.drop_last();
        assert forall|i: int| 0 <= i < rest.len() implies #[trigger] rest[i] != '/' by {
            assert(rest[i] == last[i]);
        }
        lemma_after_slash(start, rest);
        assert(s.drop_last() =~= start + "/"@ + rest);
        assert(s.last() == last[last.len() - 1]);
        assert(rest.push(last.last()) =~= last);
    }
}

/// A directory that is there is taken up exactly where it is on the right branch. Where there is
/// none, it is made for the branch, which is made too where there is none.
pub proof fn how_a_directory_is_had(
    path: &str,
    branch: &str,
    base: &str,
    current: &str,
    exists: bool,
    r: Result<WorktreeStep, String>,
    s: Result<WorktreeStep, String>,
)
    requires
        call_ensures(resume::ensure_worktree, (path, branch, base, Some(current), exists), r),
        call_ensures(resume::ensure_worktree, (path, branch, base, None, exists), s),
    ensures
        r is Ok <==> current@ == branch@,
        r is Ok ==> r->Ok_0 is Ready,
        s is Ok,
        s->Ok_0 is Attach <==> exists,
        s->Ok_0 is Create <==> !exists,
        s->Ok_0 matches WorktreeStep::Attach { args } ==> args@.len() == 4 && args@[2]@ == path@
            && args@[3]@ == branch@,
        s->Ok_0 matches WorktreeStep::Create { args } ==> args@.len() == 6 && args@[2]@ == "-b"@
            && args@[3]@ == branch@ && args@[4]@ == path@ && args@[5]@ == base@,
{
    match s {
        Ok(WorktreeStep::Attach { args }) => {
            let all = text::texts(args@);
            assert(all.len() == args@.len());
            assert(all[2] == args@[2]@);
            assert(all[3] == args@[3]@);
        },
        Ok(WorktreeStep::Create { args }) => {
            let all = text::texts(args@);
            assert(all.len() == args@.len());
            assert(all[2] == args@[2]@);
            assert(all[3] == args@[3]@);
            assert(all[4] == args@[4]@);
            assert(all[5] == args@[5]@);
        },
        _ => {},
    }
}

/// A new directory is made for a thesis only where neither it nor its branch is there, and the
/// branch is the thesis's own.
pub proof fn nothing_is_overwritten_by_a_claim(
    root: &str,
    number: u64,
    title: &str,
    path_exists: bool,
    branch_exists: bool,
    branch: String,
    path: String,
    r: Result<ThesisWorkspace, String>,
)
    requires
        call_ensures(
            commands::create_thesis_worktree,
            (root, number, title, path_exists, branch_exists),
            r,
        ),
        call_ensures(commands::thesis_branch, (number, title), branch),
        call_ensures(commands::thesis_worktree_path, (root, number, title), path),
    ensures
        r is Ok <==> !path_exists && !branch_exists,
        r matches Ok(w) ==> w.branch@ == branch@ && w.worktree_path@ == path@,
        exists|rest: Seq<char>| #[trigger]
            ("thesis/"@ + text::decimal(number as nat) + "-"@ + rest) == branch@,
{
    assert("thesis/"@ + text::decimal(number as nat) + "-"@ + commands::slug_of(title@)
        == branch@);
}

/// What is given for a node goes before what it had, and that before what is usual.
pub proof fn which_share_a_node_gets(given: Option<u8>, existing: Option<u8>, r: u8)
    requires
        call_ensures(init::capacity, (given, existing), r),
    ensures
        given matches Some(c) ==> r == c,
        given is None && existing is Some ==> r == existing->Some_0,
        given is None && existing is None ==> r == 75,
{
}

/// The name of a machine is its own unless the environment gives it one that is not blank.
pub proof fn what_a_machine_is_called(
    env: &str,
    env_trimmed: &str,
    output: &str,
    output_trimmed: &str,
    r: String,
    s: String,
    t: String,
)
    requires
        call_ensures(text::trim, (env,), env_trimmed),
        call_ensures(text::trim, (output,), output_trimmed),
        call_ensures(commands::resolve_hostname, (Some(env), Some(output)), r),
        call_ensures(commands::resolve_hostname, (None, Some(output)), s),
        call_ensures(commands::resolve_hostname, (None, None), t),
    ensures
        env_trimmed@.len() > 0 ==> r@ == env_trimmed@,
        env_trimmed@.len() == 0 ==> r@ == output_trimmed@,
        s@ == output_trimmed@,
        t@ == "local"@,
{
}

/// Two machines with one name differ by their suffix.
pub proof fn machines_of_one_name_are_told_apart(
    host: &str,
    m: u16,
    n: u16,
    a: String,
    b: String,
)
    requires
        call_ensures(commands::machine_id, (host, m), a),
        call_ensures(commands::machine_id, (host, n), b),
        m != n,
    ensures
        a@ != b@,
        a@.len() == host@.len() + 5,
        a@.take(host@.len() as int) == host@,
        a@[host@.len() as int] == '-',
{
    reveal_strlit("-");
    let p = commands::hex_four(m);
    let q = commands::hex_four(n);
    let start = host@ + "-"@;
    assert(a@.take(host@.len() as int) =~= host@);
    if a@ == b@ {
        assert forall|k: int| 0 <= k < 4 implies p[k] == q[k] by {
            assert(a@[start.len() + k] == p[k]);
            assert(b@[start.len() + k] == q[k]);
        }
        assert(p[0] == q[0] && p[1] == q[1] && p[2] == q[2] && p[3] == q[3]);
    }
}

/// A node's settings are kept where nothing else is given; what is given takes effect, and the name
/// is the node's.
pub proof fn what_a_node_is_set_to(
    existing: NodeConfig,
    node: &str,
    o: NodeOverrides,
    program: &str,
    r: NodeConfig,
)
    requires
        call_ensures(commands::write_node_config, (Some(existing), node, &o, program), r),
    ensures
        r.node_id@ == node@,
        o.capacity is None ==> r.capacity == existing.capacity,
        o.capacity matches Some(c) ==> (1 <= c <= 100 ==> r.capacity == c),
        o.api_budget is None ==> r.api_budget == existing.api_budget,
        o.api_budget matches Some(b) ==> (b > 0 ==> r.api_budget == b),
        o.request_delay is None ==> r.request_delay_ms == existing.request_delay_ms,
        o.agent_command is None ==> r.agent.command@ == existing.agent.command@,
        o.agent_command matches Some(c) ==> r.agent.command@ == c@,
        o.agent_timeout is None ==> r.agent.timeout_secs == existing.agent.timeout_secs,
        o.agent_timeout matches Some(t) ==> r.agent.timeout_secs == t,
{
}

} // verus!
