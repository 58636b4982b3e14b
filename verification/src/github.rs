//! The repository host: what it knows of issues, pull requests and comments, how its command line
//! tool is asked, and what follows when a request fails.
use crate::comments;
use crate::comments::Readings;
use crate::json;
use crate::text;
use crate::time::{Delay, Timestamp};
use vstd::prelude::*;
use vstd::string::*;

verus! {

/// A repository on the host.
#[derive(Debug, PartialEq, Eq)]
pub struct RepoRef {
    pub owner: String,
    pub name: String,
}

impl Clone for RepoRef {
    fn clone(&self) -> (r: Self)
        ensures
            r == *self,
    {
        RepoRef { owner: self.owner.clone(), name: self.name.clone() }
    }
}

/// A label of an issue.
#[derive(Debug)]
pub struct Label {
    pub name: String,
}

/// The author of an issue or a pull request.
#[derive(Debug)]
pub struct Author {
    pub login: String,
}

impl Clone for Author {
    fn clone(&self) -> (r: Self)
        ensures
            r == *self,
    {
        Author { login: self.login.clone() }
    }
}

/// The author of a comment.
#[derive(Debug)]
pub struct CommentUser {
    pub login: String,
}

/// An issue: a thesis.
#[derive(Debug)]
pub struct Issue {
    pub number: u64,
    pub title: String,
    pub body: Option<String>,
    pub state: String,
    pub labels: Vec<Label>,
    pub created_at: Timestamp,
    pub closed_at: Option<Timestamp>,
    pub author: Option<Author>,
    pub url: Option<String>,
}

/// A comment on an issue or a pull request.
#[derive(Debug)]
pub struct IssueComment {
    pub id: u64,
    pub body: String,
    pub user: CommentUser,
    pub created_at: Timestamp,
    pub updated_at: Option<Timestamp>,
    /// What the numbers and the JSON text in the body read as.
    pub readings: Readings,
}

/// A pull request: a candidate.
#[derive(Debug)]
pub struct PullRequest {
    pub number: u64,
    pub title: String,
    pub body: Option<String>,
    pub state: String,
    pub head_ref_name: String,
    pub head_ref_oid: Option<String>,
    pub base_ref_name: Option<String>,
    pub created_at: Timestamp,
    pub closed_at: Option<Timestamp>,
    pub merged_at: Option<Timestamp>,
    pub author: Option<Author>,
    pub url: Option<String>,
    pub mergeable: Option<String>,
}

impl Clone for PullRequest {
    fn clone(&self) -> (r: Self)
        ensures
            r == *self,
    {
        let author = match &self.author {
            Some(a) => Some(a.clone()),
            None => None,
        };
        PullRequest {
            number: self.number,
            title: self.title.clone(),
            body: text::copy(&self.body),
            state: self.state.clone(),
            head_ref_name: self.head_ref_name.clone(),
            head_ref_oid: text::copy(&self.head_ref_oid),
            base_ref_name: text::copy(&self.base_ref_name),
            created_at: self.created_at,
            closed_at: self.closed_at,
            merged_at: self.merged_at,
            author,
            url: text::copy(&self.url),
            mergeable: text::copy(&self.mergeable),
        }
    }
}

/// A file that a pull request changes.
#[derive(Debug)]
pub struct PullRequestFile {
    pub filename: String,
}

/// How much of the host's budget of requests is used.
#[derive(Clone, Copy, Debug)]
pub struct RateLimitStatus {
    pub resources: RateLimitResources,
}

/// The budgets of requests.
#[derive(Clone, Copy, Debug)]
pub struct RateLimitResources {
    pub core: RateLimitBucket,
}

/// One budget of requests.
#[derive(Clone, Copy, Debug)]
pub struct RateLimitBucket {
    pub limit: u64,
    pub remaining: u64,
    pub reset: u64,
    pub used: u64,
}

/// A number of 64 bits taken as a signed one.
pub open spec fn as_signed(n: u64) -> int {
    if n <= i64::MAX {
        n as int
    } else {
        n - 0x1_0000_0000_0000_0000
    }
}

impl RateLimitBucket {
    /// The time at which the budget is filled again, where the calendar knows it.
    pub open spec fn reset_time(&self) -> Option<Timestamp> {
        let t = Timestamp { secs: as_signed(self.reset) as i64, nanos: 0 };
        if t.on_calendar() {
            Some(t)
        } else {
            None
        }
    }

    /// The time at which the budget is filled again, where the calendar knows it.
    pub fn reset_at(&self) -> (r: Option<Timestamp>)
        ensures
            r == self.reset_time(),
    {
        let secs: i64 = if self.reset <= i64::MAX as u64 {
            self.reset as i64
        } else {
            (self.reset as i128 - 0x1_0000_0000_0000_0000) as i64
        };
        if crate::time::FIRST_SECOND <= secs && secs <= crate::time::LAST_SECOND {
            Some(Timestamp { secs, nanos: 0 })
        } else {
            None
        }
    }
}

/// Which limit of the host a request has run into.
#[derive(Clone, Copy, Debug, PartialEq, Eq, Structural)]
pub enum RateLimitKind {
    Primary,
    Secondary,
}

impl RateLimitKind {
    /// The word for the limit.
    pub open spec fn word(self) -> Seq<char> {
        match self {
            RateLimitKind::Primary => "primary"@,
            RateLimitKind::Secondary => "secondary"@,
        }
    }

    /// The word for the limit.
    pub fn text(&self) -> (r: String)
        ensures
            r@ == self.word(),
    {
        match self {
            RateLimitKind::Primary => "primary".to_owned(),
            RateLimitKind::Secondary => "secondary".to_owned(),
        }
    }
}

/// Why the host's tool gave up.
#[derive(Debug)]
pub enum GitHubCliError {
    RateLimited { kind: RateLimitKind, retry_after_secs: u64, attempts: usize, stderr: String },
}

impl GitHubCliError {
    /// The message of the error.
    pub open spec fn message(&self) -> Seq<char> {
        match *self {
            GitHubCliError::RateLimited { kind, retry_after_secs, attempts, stderr } =>
            "GitHub API "@ + kind.word() + " rate limit hit after "@ + text::decimal(
                attempts as nat,
            ) + " retries. Retry after about "@ + text::decimal(retry_after_secs as nat)
                + "s. Last error: "@ + stderr@,
        }
    }

    /// The message of the error.
    pub fn text(&self) -> (r: String)
        ensures
            r@ == self.message(),
    {
        match self {
            GitHubCliError::RateLimited { kind, retry_after_secs, attempts, stderr } => {
                let mut r = "GitHub API ".to_owned();
                r.append(kind.text().as_str());
                r.append(" rate limit hit after ");
                r.append(text::number(*attempts as u64).as_str());
                r.append(" retries. Retry after about ");
                r.append(text::number(*retry_after_secs).as_str());
                r.append("s. Last error: ");
                r.append(stderr.as_str());
                r
            },
        }
    }
}

/// Which issues are listed.
#[derive(Clone, Copy, Debug)]
pub enum IssueListState {
    All,
}

impl IssueListState {
    /// The word for the choice.
    pub fn as_str(self) -> (r: &'static str)
        ensures
            r@ == "all"@,
    {
        "all"
    }
}

/// Which pull requests are listed.
#[derive(Clone, Copy, Debug)]
pub enum PullRequestListState {
    All,
}

impl PullRequestListState {
    /// The word for the choice.
    pub fn as_str(self) -> (r: &'static str)
        ensures
            r@ == "all"@,
    {
        "all"
    }
}

/// The parts of `owner/name`.
pub open spec fn repo_parts(value: Seq<char>) -> Option<(Seq<char>, Seq<char>)> {
    match text::cut(value, "/"@) {
        Some((owner, name)) => if owner.len() > 0 && name.len() > 0 && !text::holds(name, "/"@) {
            Some((owner, name))
        } else {
            None
        },
        None => None,
    }
}

/// Why a value is no `owner/name`.
pub open spec fn repo_error(value: Seq<char>) -> Seq<char> {
    if text::cut(value, "/"@) is None {
        "expected repo in `owner/name` format"@
    } else {
        "expected repo in `owner/name` format, got `"@ + value + "`"@
    }
}

/// An address without white space and `.git` at its end.
pub open spec fn bare_address(url: Seq<char>) -> Seq<char> {
    text::without_suffixes(text::trimmed(url), ".git"@)
}

/// What follows the host's name in an address; nothing where the address is not on the host.
pub open spec fn on_host(url: Seq<char>) -> Option<Seq<char>> {
    let t = bare_address(url);
    let rest = if text::begins(t, "https://www.github.com/"@) {
        text::after_prefix(t, "https://www.github.com/"@)
    } else if text::begins(t, "https://github.com/"@) {
        text::after_prefix(t, "https://github.com/"@)
    } else if text::begins(t, "http://www.github.com/"@) {
        text::after_prefix(t, "http://www.github.com/"@)
    } else if text::begins(t, "http://github.com/"@) {
        text::after_prefix(t, "http://github.com/"@)
    } else {
        text::after_prefix(t, "git@github.com:"@)
    };
    match rest {
        Some(r) => Some(text::without_trailing(r, '/')),
        None => None,
    }
}

fn strip_github_prefix(url: &str) -> (r: Option<&str>)
    ensures
        match r {
            Some(t) => on_host(url@) == Some(t@),
            None => on_host(url@) is None,
        },
{
    let t = text::trim_end_str(text::trim(url), ".git");
    match text::strip_prefix(t, "https://www.github.com/") {
        Some(rest) => {
            return Some(text::trim_end_char(rest, '/'));
        },
        None => {},
    }
    match text::strip_prefix(t, "https://github.com/") {
        Some(rest) => {
            return Some(text::trim_end_char(rest, '/'));
        },
        None => {},
    }
    match text::strip_prefix(t, "http://www.github.com/") {
        Some(rest) => {
            return Some(text::trim_end_char(rest, '/'));
        },
        None => {},
    }
    match text::strip_prefix(t, "http://github.com/") {
        Some(rest) => {
            return Some(text::trim_end_char(rest, '/'));
        },
        None => {},
    }
    match text::strip_prefix(t, "git@github.com:") {
        Some(rest) => Some(text::trim_end_char(rest, '/')),
        None => None,
    }
}

impl RepoRef {
    /// The repository that a value `owner/name` names, or the message why it names none.
    pub open spec fn parse_result(value: Seq<char>, r: Result<RepoRef, String>) -> bool {
        match repo_parts(value) {
            Some((owner, name)) => r matches Ok(repo) && repo.owner@ == owner && repo.name@ == name,
            None => r matches Err(e) && e@ == repo_error(value),
        }
    }

    /// Finds the repository: the one that was named, else the one that the remote address of the
    /// checkout names.
    pub fn discover(explicit: Option<&str>, remote: Result<String, String>) -> (r: Result<
        Self,
        String,
    >)
        ensures
            match explicit {
                Some(value) => RepoRef::parse_result(value@, r),
                None => match remote {
                    Ok(address) => RepoRef::parse_result(
                        match on_host(text::trimmed(address@)) {
                            Some(t) => t,
                            None => bare_address(text::trimmed(address@)),
                        },
                        r,
                    ),
                    Err(e) => r == Err::<RepoRef, String>(e),
                },
            },
    {
        match explicit {
            Some(value) => RepoRef::parse(value),
            None => match remote {
                Ok(address) => RepoRef::parse_remote(text::trim(address.as_str())),
                Err(e) => Err(e),
            },
        }
    }

    /// Reads `owner/name`.
    pub fn parse(value: &str) -> (r: Result<Self, String>)
        ensures
            RepoRef::parse_result(value@, r),
    {
        match text::split_once(value, "/") {
            Some((owner, name)) => {
                if owner.unicode_len() == 0 || name.unicode_len() == 0 || text::contains(
                    name,
                    "/",
                ) {
                    let mut e = "expected repo in `owner/name` format, got `".to_owned();
                    e.append(value);
                    e.append("`");
                    return Err(e);
                }
                Ok(RepoRef { owner: owner.to_owned(), name: name.to_owned() })
            },
            None => Err("expected repo in `owner/name` format".to_owned()),
        }
    }

    fn parse_remote(remote: &str) -> (r: Result<Self, String>)
        ensures
            RepoRef::parse_result(
                match on_host(remote@) {
                    Some(t) => t,
                    None => bare_address(remote@),
                },
                r,
            ),
    {
        match strip_github_prefix(remote) {
            Some(t) => RepoRef::parse(t),
            None => RepoRef::parse(text::trim_end_str(text::trim(remote), ".git")),
        }
    }

    /// The repository that an address on the host names.
    pub fn parse_url(url: &str) -> (r: Option<Self>)
        ensures
            match r {
                Some(repo) => on_host(url@) matches Some(t) && repo_parts(t) == Some(
                    (repo.owner@, repo.name@),
                ),
                None => match on_host(url@) {
                    Some(t) => repo_parts(t) is None,
                    None => true,
                },
            },
    {
        match strip_github_prefix(url) {
            Some(t) => match RepoRef::parse(t) {
                Ok(repo) => Some(repo),
                Err(_) => None,
            },
            None => None,
        }
    }

    /// `owner/name`.
    pub fn slug(&self) -> (r: String)
        ensures
            r@ == self.owner@ + "/"@ + self.name@,
    {
        let mut r = self.owner.clone();
        r.append("/");
        r.append(self.name.as_str());
        r
    }

    /// Accepts either a full address on the host or the short form `owner/name`.
    pub fn from_user_input(input: &str) -> (r: Result<Self, String>)
        ensures
            ({
                let t = text::trimmed(input@);
                let address = match on_host(input@) {
                    Some(a) => repo_parts(a),
                    None => None,
                };
                match address {
                    Some((owner, name)) => r matches Ok(repo) && repo.owner@ == owner && repo.name@
                        == name,
                    None => if text::holds(t, "://"@) || text::begins(t, "git@"@) {
                        r matches Err(e) && e@ == "not a recognized GitHub URL: "@ + input@
                    } else {
                        RepoRef::parse_result(t, r)
                    },
                }
            }),
    {
        match RepoRef::parse_url(input) {
            Some(repo) => {
                return Ok(repo);
            },
            None => {},
        }
        let trimmed = text::trim(input);
        if text::contains(trimmed, "://") || text::starts_with(trimmed, "git@") {
            let mut e = "not a recognized GitHub URL: ".to_owned();
            e.append(input);
            return Err(e);
        }
        RepoRef::parse(trimmed)
    }

    /// The address from which the repository is cloned.
    pub fn clone_url(&self) -> (r: String)
        ensures
            r@ == "https://github.com/"@ + self.owner@ + "/"@ + self.name@ + ".git"@,
    {
        let mut r = "https://github.com/".to_owned();
        r.append(self.owner.as_str());
        r.append("/");
        r.append(self.name.as_str());
        r.append(".git");
        r
    }
}

/// A field sent with a request. The value of a raw field is always a text; that of a typed one may
/// be read as a truth value or a number.
pub enum ApiField<'a> {
    Raw(&'a str, &'a str),
    Typed(&'a str, &'a str),
}

impl<'a> ApiField<'a> {
    /// The two arguments that send the field.
    pub open spec fn arguments(self) -> Seq<Seq<char>> {
        match self {
            ApiField::Raw(k, v) => seq!["-f"@, k@ + "="@ + v@],
            ApiField::Typed(k, v) => seq!["-F"@, k@ + "="@ + v@],
        }
    }
}

/// The arguments that send fields.
pub open spec fn field_arguments(fields: Seq<ApiField>) -> Seq<Seq<char>>
    decreases fields.len(),
{
    if fields.len() == 0 {
        Seq::empty()
    } else {
        field_arguments(fields.drop_last()) + fields.last().arguments()
    }
}

/// The arguments of a request.
pub open spec fn request_arguments(
    method: Seq<char>,
    endpoint: Seq<char>,
    fields: Seq<ApiField>,
) -> Seq<Seq<char>> {
    seq!["api"@, "--method"@, method, endpoint] + field_arguments(fields)
}

/// A request that only reads can be sent again without harm.
pub open spec fn is_idempotent(method: Seq<char>) -> bool {
    text::lower(method) == "get"@ || text::lower(method) == "head"@
}

proof fn lemma_methods()
    ensures
        is_idempotent("GET"@),
        is_idempotent("HEAD"@),
        !is_idempotent("POST"@),
        !is_idempotent("PATCH"@),
        !is_idempotent("PUT"@),
        !is_idempotent("DELETE"@),
{
    reveal_strlit("GET");
    reveal_strlit("HEAD");
    reveal_strlit("POST");
    reveal_strlit("PATCH");
    reveal_strlit("PUT");
    reveal_strlit("DELETE");
    reveal_strlit("get");
    reveal_strlit("head");
    assert(text::lower("GET"@) =~= "get"@);
    assert(text::lower("HEAD"@) =~= "head"@);
    assert(text::lower("POST"@)[0] == 'p');
    assert(text::lower("PATCH"@)[0] == 'p');
    assert(text::lower("PUT"@)[0] == 'p');
    assert(text::lower("DELETE"@)[0] == 'd');
    assert("get"@[0] == 'g');
    assert("head"@[0] == 'h');
}

/// Arguments for the host's tool, and whether they can be sent again without harm.
pub struct GhCommand {
    pub args: Vec<String>,
    pub idempotent: bool,
}

/// The arguments of a request, and whether it can be sent again without harm.
pub fn gh_api(method: &str, endpoint: &str, fields: &Vec<ApiField>) -> (r: GhCommand)
    ensures
        text::texts(r.args@) == request_arguments(method@, endpoint@, fields@),
        r.idempotent == is_idempotent(method@),
{
    let lowered = text::to_ascii_lowercase(method);
    let idempotent = text::same(lowered.as_str(), "get") || text::same(lowered.as_str(), "head");
    let mut args: Vec<String> = Vec::new();
    args.push("api".to_owned());
    args.push("--method".to_owned());
    args.push(method.to_owned());
    args.push(endpoint.to_owned());
    let ghost start = seq!["api"@, "--method"@, method@, endpoint@];
    assert(text::texts(args@) == start);
    let mut i: usize = 0;
    assert(fields@.take(0).len() == 0);
    assert(start + field_arguments(fields@.take(0)) == start);
    while i < fields.len()
        invariant
            i <= fields.len(),
            text::texts(args@) == start + field_arguments(fields@.take(i as int)),
        decreases fields.len() - i,
    {
        let ghost before = args@;
        let (flag, key, value) = match &fields[i] {
            ApiField::Raw(k, v) => ("-f", *k, *v),
            ApiField::Typed(k, v) => ("-F", *k, *v),
        };
        let mut pair = key.to_owned();
        pair.append("=");
        pair.append(value);
        args.push(flag.to_owned());
        args.push(pair);
        proof {
            assert(fields@.take(i + 1).drop_last() == fields@.take(i as int));
            assert(fields@.take(i + 1).last() == fields@[i as int]);
            assert(text::texts(args@) == text::texts(before) + fields@[i as int].arguments());
            assert(text::texts(before) + fields@[i as int].arguments() == start
                + field_arguments(fields@.take(i + 1)));
        }
        i = i + 1;
    }
    assert(fields@.take(i as int) == fields@);
    GhCommand { args, idempotent }
}

/// A client of one repository on the host.
#[derive(Debug)]
pub struct GitHubClient {
    pub repo: RepoRef,
}

/// The fields that are asked for of an issue.
pub const ISSUE_FIELDS: &'static str = "number,title,body,state,labels,createdAt,closedAt,author,url";

/// The fields that are asked for of a pull request.
pub const PULL_REQUEST_FIELDS: &'static str =
    "number,title,body,state,headRefName,headRefOid,baseRefName,createdAt,closedAt,mergedAt,author,url,mergeable";

impl GitHubClient {
    /// The path of the repository among the host's endpoints.
    pub open spec fn root(&self) -> Seq<char> {
        "repos/"@ + self.repo.owner@ + "/"@ + self.repo.name@
    }

    /// The name `owner/name` of the repository.
    pub open spec fn slug(&self) -> Seq<char> {
        self.repo.owner@ + "/"@ + self.repo.name@
    }

    /// A client of the repository.
    pub fn new(repo: RepoRef) -> (r: Self)
        ensures
            r.repo == repo,
    {
        GitHubClient { repo }
    }

    fn path(&self, rest: &str) -> (r: String)
        ensures
            r@ == self.root() + rest@,
    {
        let mut r = "repos/".to_owned();
        r.append(self.repo.owner.as_str());
        r.append("/");
        r.append(self.repo.name.as_str());
        r.append(rest);
        r
    }

    fn numbered(&self, middle: &str, number: u64, rest: &str) -> (r: String)
        ensures
            r@ == self.root() + middle@ + text::decimal(number as nat) + rest@,
    {
        let mut r = self.path(middle);
        r.append(text::number(number).as_str());
        r.append(rest);
        r
    }

    /// Asks who is logged in.
    pub fn current_login(&self) -> (r: GhCommand)
        ensures
            text::texts(r.args@) == seq!["api"@, "user"@],
            r.idempotent,
    {
        let args: Vec<String> = text::owned(&["api", "user"]);
        assert(text::texts(args@) =~= seq!["api"@, "user"@]);
        GhCommand { args, idempotent: true }
    }

    /// Asks whether the tool is logged in.
    pub fn auth_status(&self) -> (r: GhCommand)
        ensures
            text::texts(r.args@) == seq!["auth"@, "status"@],
            !r.idempotent,
    {
        let args: Vec<String> = text::owned(&["auth", "status"]);
        assert(text::texts(args@) =~= seq!["auth"@, "status"@]);
        GhCommand { args, idempotent: false }
    }

    /// Asks for the budget of requests.
    pub fn get_rate_limit_status(&self) -> (r: GhCommand)
        ensures
            text::texts(r.args@) == request_arguments("GET"@, "rate_limit"@, Seq::empty()),
            r.idempotent,
    {
        proof {
            lemma_methods();
        }
        gh_api("GET", "rate_limit", &Vec::new())
    }

    /// Asks for the repository.
    pub fn repo_has_issues(&self) -> (r: GhCommand)
        ensures
            text::texts(r.args@) == request_arguments("GET"@, self.root() + ""@, Seq::empty()),
            r.idempotent,
    {
        proof {
            lemma_methods();
        }
        gh_api("GET", self.path("").as_str(), &Vec::new())
    }

    /// Switches the issues of the repository on.
    pub fn enable_issues(&self) -> (r: GhCommand)
        ensures
            text::texts(r.args@) == request_arguments(
                "PATCH"@,
                self.root() + ""@,
                seq![ApiField::Typed("has_issues", "true")],
            ),
            !r.idempotent,
    {
        proof {
            lemma_methods();
        }
        let fields: Vec<ApiField> = vec![ApiField::Typed("has_issues", "true")];
        assert(fields@ =~= seq![ApiField::Typed("has_issues", "true")]);
        gh_api("PATCH", self.path("").as_str(), &fields)
    }

    /// Asks for all theses.
    pub fn list_thesis_issues(&self, state: IssueListState) -> (r: GhCommand)
        ensures
            text::texts(r.args@) == seq![
                "issue"@,
                "list"@,
                "--repo"@,
                self.slug(),
                "--label"@,
                "thesis"@,
                "--state"@,
                "all"@,
                "--limit"@,
                "1000"@,
                "--json"@,
                ISSUE_FIELDS@,
            ],
            r.idempotent,
    {
        let slug = self.repo.slug();
        let args: Vec<String> = text::owned(
            &[
                "issue",
                "list",
                "--repo",
                slug.as_str(),
                "--label",
                "thesis",
                "--state",
                state.as_str(),
                "--limit",
                "1000",
                "--json",
                ISSUE_FIELDS,
            ],
        );
        assert(text::texts(args@) =~= seq![
            "issue"@,
            "list"@,
            "--repo"@,
            self.slug(),
            "--label"@,
            "thesis"@,
            "--state"@,
            "all"@,
            "--limit"@,
            "1000"@,
            "--json"@,
            ISSUE_FIELDS@,
        ]);
        GhCommand { args, idempotent: true }
    }

    /// Asks for the comments of an issue.
    pub fn list_issue_comments(&self, issue_number: u64) -> (r: GhCommand)
        ensures
            text::texts(r.args@) == request_arguments(
                "GET"@,
                self.root() + "/issues/"@ + text::decimal(issue_number as nat)
                    + "/comments?per_page=100"@,
                Seq::empty(),
            ),
            r.idempotent,
    {
        proof {
            lemma_methods();
        }
        gh_api(
            "GET",
            self.numbered("/issues/", issue_number, "/comments?per_page=100").as_str(),
            &Vec::new(),
        )
    }

    /// Opens an issue.
    pub fn create_issue(&self, title: &str, body: &str, labels: &[&str]) -> (r: GhCommand)
        ensures
            text::texts(r.args@) == request_arguments(
                "POST"@,
                self.root() + "/issues"@,
                seq![ApiField::Raw("title", title), ApiField::Raw("body", body)]
                    + labels@.map_values(|l: &str| ApiField::Raw("labels[]", l)),
            ),
            !r.idempotent,
    {
        proof {
            lemma_methods();
        }
        let mut fields: Vec<ApiField> = Vec::new();
        fields.push(ApiField::Raw("title", title));
        fields.push(ApiField::Raw("body", body));
        let ghost start = seq![ApiField::Raw("title", title), ApiField::Raw("body", body)];
        let ghost rest = labels@.map_values(|l: &str| ApiField::Raw("labels[]", l));
        let mut i: usize = 0;
        assert(fields@ =~= start + rest.take(0));
        while i < labels.len()
            invariant
                i <= labels.len(),
                rest == labels@.map_values(|l: &str| ApiField::Raw("labels[]", l)),
                fields@ =~= start + rest.take(i as int),
            decreases labels.len() - i,
        {
            fields.push(ApiField::Raw("labels[]", labels[i]));
            assert(rest.take(i + 1) =~= rest.take(i as int).push(rest[i as int]));
            i = i + 1;
        }
        assert(rest.take(i as int) =~= rest);
        gh_api("POST", self.path("/issues").as_str(), &fields)
    }

    /// Posts a comment.
    pub fn post_issue_comment(&self, issue_number: u64, body: &str) -> (r: GhCommand)
        ensures
            text::texts(r.args@) == request_arguments(
                "POST"@,
                self.root() + "/issues/"@ + text::decimal(issue_number as nat) + "/comments"@,
                seq![ApiField::Raw("body", body)],
            ),
            !r.idempotent,
    {
        proof {
            lemma_methods();
        }
        let fields: Vec<ApiField> = vec![ApiField::Raw("body", body)];
        assert(fields@ =~= seq![ApiField::Raw("body", body)]);
        gh_api(
            "POST",
            self.numbered("/issues/", issue_number, "/comments").as_str(),
            &fields,
        )
    }

    /// Assigns people to an issue.
    pub fn add_assignees(&self, issue_number: u64, assignees: &[&str]) -> (r: GhCommand)
        ensures
            text::texts(r.args@) == request_arguments(
                "POST"@,
                self.root() + "/issues/"@ + text::decimal(issue_number as nat) + "/assignees"@,
                assignees@.map_values(|a: &str| ApiField::Raw("assignees[]", a)),
            ),
            !r.idempotent,
    {
        proof {
            lemma_methods();
        }
        let ghost all = assignees@.map_values(|a: &str| ApiField::Raw("assignees[]", a));
        let mut fields: Vec<ApiField> = Vec::new();
        let mut i: usize = 0;
        while i < assignees.len()
            invariant
                i <= assignees.len(),
                all == assignees@.map_values(|a: &str| ApiField::Raw("assignees[]", a)),
                fields@ =~= all.take(i as int),
            decreases assignees.len() - i,
        {
            fields.push(ApiField::Raw("assignees[]", assignees[i]));
            assert(all.take(i + 1) =~= all.take(i as int).push(all[i as int]));
            i = i + 1;
        }
        assert(all.take(i as int) =~= all);
        gh_api(
            "POST",
            self.numbered("/issues/", issue_number, "/assignees").as_str(),
            &fields,
        )
    }

    /// Closes an issue.
    pub fn close_issue(&self, issue_number: u64) -> (r: GhCommand)
        ensures
            text::texts(r.args@) == request_arguments(
                "PATCH"@,
                self.root() + "/issues/"@ + text::decimal(issue_number as nat) + ""@,
                seq![ApiField::Raw("state", "closed")],
            ),
            !r.idempotent,
    {
        proof {
            lemma_methods();
        }
        let fields: Vec<ApiField> = vec![ApiField::Raw("state", "closed")];
        assert(fields@ =~= seq![ApiField::Raw("state", "closed")]);
        gh_api("PATCH", self.numbered("/issues/", issue_number, "").as_str(), &fields)
    }

    /// Opens an issue again.
    pub fn reopen_issue(&self, issue_number: u64) -> (r: GhCommand)
        ensures
            text::texts(r.args@) == request_arguments(
                "PATCH"@,
                self.root() + "/issues/"@ + text::decimal(issue_number as nat) + ""@,
                seq![ApiField::Raw("state", "open")],
            ),
            !r.idempotent,
    {
        proof {
            lemma_methods();
        }
        let fields: Vec<ApiField> = vec![ApiField::Raw("state", "open")];
        assert(fields@ =~= seq![ApiField::Raw("state", "open")]);
        gh_api("PATCH", self.numbered("/issues/", issue_number, "").as_str(), &fields)
    }

    /// Asks for all pull requests.
    pub fn list_pull_requests(&self, state: PullRequestListState) -> (r: GhCommand)
        ensures
            text::texts(r.args@) == seq![
                "pr"@,
                "list"@,
                "--repo"@,
                self.slug(),
                "--state"@,
                "all"@,
                "--limit"@,
                "1000"@,
                "--json"@,
                PULL_REQUEST_FIELDS@,
            ],
            r.idempotent,
    {
        let slug = self.repo.slug();
        let args: Vec<String> = text::owned(
            &[
                "pr",
                "list",
                "--repo",
                slug.as_str(),
                "--state",
                state.as_str(),
                "--limit",
                "1000",
                "--json",
                PULL_REQUEST_FIELDS,
            ],
        );
        assert(text::texts(args@) =~= seq![
            "pr"@,
            "list"@,
            "--repo"@,
            self.slug(),
            "--state"@,
            "all"@,
            "--limit"@,
            "1000"@,
            "--json"@,
            PULL_REQUEST_FIELDS@,
        ]);
        GhCommand { args, idempotent: true }
    }

    /// Asks for a pull request.
    pub fn get_pull_request(&self, pr_number: u64) -> (r: GhCommand)
        ensures
            text::texts(r.args@) == seq![
                "pr"@,
                "view"@,
                text::decimal(pr_number as nat),
                "--repo"@,
                self.slug(),
                "--json"@,
                PULL_REQUEST_FIELDS@,
            ],
            r.idempotent,
    {
        let slug = self.repo.slug();
        let number = text::number(pr_number);
        let args: Vec<String> = text::owned(
            &[
                "pr",
                "view",
                number.as_str(),
                "--repo",
                slug.as_str(),
                "--json",
                PULL_REQUEST_FIELDS,
            ],
        );
        assert(text::texts(args@) =~= seq![
            "pr"@,
            "view"@,
            text::decimal(pr_number as nat),
            "--repo"@,
            self.slug(),
            "--json"@,
            PULL_REQUEST_FIELDS@,
        ]);
        GhCommand { args, idempotent: true }
    }

    /// Asks for the comments of a pull request.
    pub fn list_pull_request_comments(&self, pr_number: u64) -> (r: GhCommand)
        ensures
            text::texts(r.args@) == request_arguments(
                "GET"@,
                self.root() + "/issues/"@ + text::decimal(pr_number as nat)
                    + "/comments?per_page=100"@,
                Seq::empty(),
            ),
            r.idempotent,
    {
        proof {
            lemma_methods();
        }
        gh_api(
            "GET",
            self.numbered("/issues/", pr_number, "/comments?per_page=100").as_str(),
            &Vec::new(),
        )
    }

    /// Asks for the files that a pull request changes.
    pub fn list_pull_request_files(&self, pr_number: u64) -> (r: GhCommand)
        ensures
            text::texts(r.args@) == request_arguments(
                "GET"@,
                self.root() + "/pulls/"@ + text::decimal(pr_number as nat)
                    + "/files?per_page=100"@,
                Seq::empty(),
            ),
            r.idempotent,
    {
        proof {
            lemma_methods();
        }
        gh_api(
            "GET",
            self.numbered("/pulls/", pr_number, "/files?per_page=100").as_str(),
            &Vec::new(),
        )
    }

    /// Opens a pull request.
    pub fn create_pull_request(&self, branch: &str, title: &str, body: &str, base: &str) -> (r:
        GhCommand)
        ensures
            text::texts(r.args@) == seq![
                "pr"@,
                "create"@,
                "--repo"@,
                self.slug(),
                "--base"@,
                base@,
                "--head"@,
                branch@,
                "--title"@,
                title@,
                "--body"@,
                body@,
            ],
            !r.idempotent,
    {
        let slug = self.repo.slug();
        let args: Vec<String> = text::owned(
            &[
                "pr",
                "create",
                "--repo",
                slug.as_str(),
                "--base",
                base,
                "--head",
                branch,
                "--title",
                title,
                "--body",
                body,
            ],
        );
        assert(text::texts(args@) =~= seq![
            "pr"@,
            "create"@,
            "--repo"@,
            self.slug(),
            "--base"@,
            base@,
            "--head"@,
            branch@,
            "--title"@,
            title@,
            "--body"@,
            body@,
        ]);
        GhCommand { args, idempotent: false }
    }

    /// The number of the pull request that an address shows.
    pub fn created_number(url: &str) -> (r: Option<u64>)
        ensures
            match r {
                Some(n) => text::read_number(
                    text::after_last(text::trimmed(url@), '/'),
                    u64::MAX as nat,
                ) == Some(n as nat),
                None => text::read_number(
                    text::after_last(text::trimmed(url@), '/'),
                    u64::MAX as nat,
                ) is None,
            },
    {
        text::parse_number(text::last_part(text::trim(url), '/').as_str(), u64::MAX)
    }

    /// Closes a pull request.
    pub fn close_pull_request(&self, pr_number: u64) -> (r: GhCommand)
        ensures
            text::texts(r.args@) == request_arguments(
                "PATCH"@,
                self.root() + "/pulls/"@ + text::decimal(pr_number as nat) + ""@,
                seq![ApiField::Raw("state", "closed")],
            ),
            !r.idempotent,
    {
        proof {
            lemma_methods();
        }
        let fields: Vec<ApiField> = vec![ApiField::Raw("state", "closed")];
        assert(fields@ =~= seq![ApiField::Raw("state", "closed")]);
        gh_api("PATCH", self.numbered("/pulls/", pr_number, "").as_str(), &fields)
    }

    /// Merges a pull request.
    pub fn merge_pull_request(&self, pr_number: u64) -> (r: GhCommand)
        ensures
            text::texts(r.args@) == request_arguments(
                "PUT"@,
                self.root() + "/pulls/"@ + text::decimal(pr_number as nat) + "/merge"@,
                seq![ApiField::Raw("merge_method", "merge")],
            ),
            !r.idempotent,
    {
        proof {
            lemma_methods();
        }
        let fields: Vec<ApiField> = vec![ApiField::Raw("merge_method", "merge")];
        assert(fields@ =~= seq![ApiField::Raw("merge_method", "merge")]);
        gh_api("PUT", self.numbered("/pulls/", pr_number, "/merge").as_str(), &fields)
    }

    /// Deletes a branch.
    pub fn delete_ref(&self, ref_name: &str) -> (r: GhCommand)
        ensures
            text::texts(r.args@) == request_arguments(
                "DELETE"@,
                self.root() + "/git/refs/heads/"@ + ref_name@,
                Seq::empty(),
            ),
            !r.idempotent,
    {
        let mut path = self.path("/git/refs/heads/");
        path.append(ref_name);
        proof {
            lemma_methods();
        }
        gh_api("DELETE", path.as_str(), &Vec::new())
    }
}

/// Why a failed request is sent again.
#[derive(Clone, Copy, Debug, PartialEq, Eq, Structural)]
pub enum RetryReason {
    RateLimited(RateLimitKind),
    Transient,
}

impl RetryReason {
    /// The words for the reason.
    pub open spec fn words(self) -> Seq<char> {
        match self {
            RetryReason::RateLimited(kind) => kind.word() + " rate limit"@,
            RetryReason::Transient => "transient error"@,
        }
    }

    /// The words for the reason.
    pub fn text(&self) -> (r: String)
        ensures
            r@ == self.words(),
    {
        match self {
            RetryReason::RateLimited(kind) => {
                let mut r = kind.text();
                r.append(" rate limit");
                r
            },
            RetryReason::Transient => "transient error".to_owned(),
        }
    }
}

/// Why a request that failed with this message is sent again, if it is.
pub open spec fn retry_reason(stderr: Seq<char>, idempotent: bool) -> Option<RetryReason> {
    let low = text::lower(stderr);
    if idempotent && (text::holds(low, "http 502"@) || text::holds(low, "http 503"@)
        || text::holds(low, "bad gateway"@) || text::holds(low, "service unavailable"@)) {
        Some(RetryReason::Transient)
    } else if text::holds(low, "secondary rate limit"@) || text::holds(low, "abuse detection"@)
        || text::holds(low, "please wait a few minutes before you try again"@) || text::holds(
        low,
        "retry-after"@,
    ) || text::holds(low, "http 429"@) {
        Some(RetryReason::RateLimited(RateLimitKind::Secondary))
    } else if text::holds(low, "api rate limit exceeded"@) {
        Some(RetryReason::RateLimited(RateLimitKind::Primary))
    } else if text::holds(low, "rate limit exceeded"@) {
        Some(RetryReason::RateLimited(RateLimitKind::Secondary))
    } else {
        None
    }
}

/// Why a request that failed with this message is sent again, if it is.
pub fn classify_retry(stderr: &str, idempotent: bool) -> (r: Option<RetryReason>)
    ensures
        r == retry_reason(stderr@, idempotent),
{
    let lowered = text::to_ascii_lowercase(stderr);
    let low = lowered.as_str();
    if idempotent && (text::contains(low, "http 502") || text::contains(low, "http 503")
        || text::contains(low, "bad gateway") || text::contains(low, "service unavailable")) {
        return Some(RetryReason::Transient);
    }
    if text::contains(low, "secondary rate limit") || text::contains(low, "abuse detection") {
        return Some(RetryReason::RateLimited(RateLimitKind::Secondary));
    }
    if text::contains(low, "please wait a few minutes before you try again") || text::contains(
        low,
        "retry-after",
    ) || text::contains(low, "http 429") {
        return Some(RetryReason::RateLimited(RateLimitKind::Secondary));
    }
    if text::contains(low, "api rate limit exceeded") {
        return Some(RetryReason::RateLimited(RateLimitKind::Primary));
    }
    if text::contains(low, "rate limit exceeded") {
        return Some(RetryReason::RateLimited(RateLimitKind::Secondary));
    }
    None
}

/// What can be done about a failure, where the message shows it.
pub open spec fn error_hint(stderr: Seq<char>) -> Option<Seq<char>> {
    let low = text::lower(stderr);
    if text::holds(low, "has disabled issues"@) {
        Some(
            "Enable Issues in your repository settings: gh api repos/OWNER/REPO --method PATCH -F has_issues=true"@,
        )
    } else if text::holds(low, "could not authenticate"@) || text::holds(
        low,
        "authentication token"@,
    ) || text::holds(low, "auth token"@) || text::holds(low, "not logged in"@) {
        Some("Run: gh auth login"@)
    } else if text::holds(low, "http 404"@) || text::holds(low, "could not resolve"@) {
        Some("Check that the repository exists and you have access: gh repo view OWNER/REPO"@)
    } else if text::holds(low, "permission denied"@) || text::holds(low, "must have admin"@)
        || text::holds(low, "resource not accessible"@) {
        Some("Check your permissions: gh api repos/OWNER/REPO --jq .permissions"@)
    } else {
        None
    }
}

fn classify_error_hint(stderr: &str) -> (r: Option<&'static str>)
    ensures
        match r {
            Some(h) => error_hint(stderr@) == Some(h@),
            None => error_hint(stderr@) is None,
        },
{
    let lowered = text::to_ascii_lowercase(stderr);
    let low = lowered.as_str();
    if text::contains(low, "has disabled issues") {
        return Some(
            "Enable Issues in your repository settings: gh api repos/OWNER/REPO --method PATCH -F has_issues=true",
        );
    }
    if text::contains(low, "could not authenticate") || text::contains(low, "authentication token")
        || text::contains(low, "auth token") || text::contains(low, "not logged in") {
        return Some("Run: gh auth login");
    }
    if text::contains(low, "http 404") || text::contains(low, "could not resolve") {
        return Some(
            "Check that the repository exists and you have access: gh repo view OWNER/REPO",
        );
    }
    if text::contains(low, "permission denied") || text::contains(low, "must have admin")
        || text::contains(low, "resource not accessible") {
        return Some("Check your permissions: gh api repos/OWNER/REPO --jq .permissions");
    }
    None
}

/// The message for a failed request.
pub open spec fn failure_message(stderr: Seq<char>) -> Seq<char> {
    match error_hint(stderr) {
        Some(h) => "GitHub CLI command failed: "@ + stderr + "\n  Hint: "@ + h,
        None => "GitHub CLI command failed: "@ + stderr,
    }
}

/// The message for a failed request.
pub fn error_with_hint(stderr: &str) -> (r: String)
    ensures
        r@ == failure_message(stderr@),
{
    let mut r = "GitHub CLI command failed: ".to_owned();
    r.append(stderr);
    match classify_error_hint(stderr) {
        Some(hint) => {
            r.append("\n  Hint: ");
            r.append(hint);
        },
        None => {},
    }
    r
}

/// The first run of digits from `i` on: where it starts and ends.
pub open spec fn digits_from(s: Seq<char>, i: int) -> (int, int)
    decreases s.len() - i,
{
    if i >= s.len() {
        (s.len() as int, s.len() as int)
    } else if text::is_digit(s[i]) {
        (i, run_end(s, i))
    } else {
        digits_from(s, i + 1)
    }
}

/// The end of the run of digits at `i`.
pub open spec fn run_end(s: Seq<char>, i: int) -> int
    decreases s.len() - i,
{
    if 0 <= i < s.len() && text::is_digit(s[i]) {
        run_end(s, i + 1)
    } else {
        i
    }
}

/// The seconds that a message asks to wait: the first number behind `retry-after`.
pub open spec fn asked_wait(stderr: Seq<char>) -> Option<nat> {
    let low = text::lower(stderr);
    match text::find_from(low, "retry-after"@, 0) {
        Some(i) => {
            let (a, b) = digits_from(low, i);
            text::read_number(low.subrange(a, b), u64::MAX as nat)
        },
        None => None,
    }
}

/// The time that a message asks to wait.
pub fn parse_retry_after(stderr: &str) -> (r: Option<Delay>)
    ensures
        match r {
            Some(d) => asked_wait(stderr@) == Some(d.secs as nat) && d.nanos == 0,
            None => asked_wait(stderr@) is None,
        },
{
    let lowered = text::to_ascii_lowercase(stderr);
    let v: Vec<char> = text::chars_of(lowered.as_str());
    match text::find(lowered.as_str(), "retry-after") {
        Some(at) => {
            proof {
                text::lemma_find_from(lowered@, "retry-after"@, 0);
            }
            let mut a: usize = at;
            while a < v.len() && !(v[a] >= '0' && v[a] <= '9')
                invariant
                    at <= a <= v.len(),
                    digits_from(v@, at as int) == digits_from(v@, a as int),
                decreases v.len() - a,
            {
                a = a + 1;
            }
            let mut b: usize = a;
            while b < v.len() && v[b] >= '0' && v[b] <= '9'
                invariant
                    a <= b <= v.len(),
                    run_end(v@, a as int) == run_end(v@, b as int),
                decreases v.len() - b,
            {
                b = b + 1;
            }
            let digits = text::string_of(&v, a, b);
            match text::parse_number(digits.as_str(), u64::MAX) {
                Some(seconds) => Some(Delay::from_secs(seconds)),
                None => None,
            }
        },
        None => None,
    }
}

/// The longest time between two tries, in seconds.
pub const MAX_RETRY_SECS: u64 = 300;

/// A delay cut off at the longest one.
pub open spec fn capped(d: Delay) -> Delay {
    if d.total() > MAX_RETRY_SECS * 1_000_000_000 {
        Delay { secs: MAX_RETRY_SECS, nanos: 0 }
    } else {
        d
    }
}

/// A delay cut off at the longest one.
pub fn capped_delay(delay: Delay) -> (r: Delay)
    requires
        delay.nanos < 1_000_000_000,
    ensures
        r == capped(delay),
{
    let most = Delay::from_secs(MAX_RETRY_SECS);
    if delay.longer(&most) {
        most
    } else {
        delay
    }
}

/// Draws a number with `rand::RngExt::random_range` from the thread's random numbers. Which number
/// of the range comes is open.
#[verifier::external_body]
pub(crate) fn random_between(low: u64, high: u64) -> (r: u64)
    requires
        low <= high,
    ensures
        low <= r <= high,
{
    rand::RngExt::random_range(&mut rand::rng(), low..=high)
}

/// The milliseconds of a delay, as far as they fit.
pub open spec fn base_millis(d: Delay) -> int {
    if d.millis() > u64::MAX {
        u64::MAX as int
    } else {
        d.millis()
    }
}

fn millis_of(base: &Delay) -> (r: u64)
    ensures
        r == base_millis(*base),
{
    let m: u128 = base.as_millis();
    if m > u64::MAX as u128 {
        u64::MAX
    } else {
        m as u64
    }
}

/// A delay and some milliseconds more, as far as they fit.
fn later(base: &Delay, extra: u64) -> (r: Delay)
    requires
        base.nanos < 1_000_000_000,
    ensures
        r.nanos < 1_000_000_000,
        base.total() <= r.total() <= base.total() + extra * 1_000_000,
        base.secs + extra / 1000 < u64::MAX ==> r.total() == base.total() + extra * 1_000_000,
        extra == 0 ==> r == *base,
{
    let nanos: u32 = base.nanos + (extra % 1000) as u32 * 1_000_000;
    let carry: u64 = if nanos >= 1_000_000_000 {
        1
    } else {
        0
    };
    let secs: u128 = base.secs as u128 + (extra / 1000) as u128 + carry as u128;
    if secs > u64::MAX as u128 {
        Delay { secs: u64::MAX, nanos: 999_999_999 }
    } else if carry == 1 {
        Delay { secs: secs as u64, nanos: nanos - 1_000_000_000 }
    } else {
        Delay { secs: secs as u64, nanos }
    }
}

/// Spreads a delay that the host asked for upwards by as much as half of it, so that those who
/// wait do not come back at once, and nobody comes back too early.
pub fn server_jittered_delay(base: Delay) -> (r: Delay)
    requires
        base.nanos < 1_000_000_000,
    ensures
        r.nanos < 1_000_000_000,
        base.total() <= r.total(),
        2 * r.total() <= 3 * base.total(),
        base.millis() == 0 ==> r == base,
{
    let most: u64 = millis_of(&base) / 2;
    let extra: u64 = random_between(0, most);
    assert(2 * extra * 1_000_000 <= base.total());
    later(&base, extra)
}

/// Spreads a delay of our own by as much as half of it both ways, so that those who wait do not
/// come back at once. It is drawn in whole milliseconds, of which no more than fit are counted.
pub fn jittered_delay(base: Delay) -> (r: Delay)
    requires
        base.nanos < 1_000_000_000,
    ensures
        r.nanos < 1_000_000_000,
        base.millis() == 0 ==> r == base,
        base.millis() <= u64::MAX ==> base.total() <= 2 * r.total(),
        base.millis() > u64::MAX ==> r.millis() > u64::MAX / 2,
        2 * r.total() <= 3 * base.total(),
{
    let middle: u64 = millis_of(&base);
    if middle == 0 {
        return base;
    }
    let low: u64 = if middle % 2 == 1 || base.nanos % 1_000_000 > 0 {
        middle / 2 + 1
    } else {
        middle / 2
    };
    let high: u64 = if middle > u64::MAX - middle / 2 {
        u64::MAX
    } else {
        middle + middle / 2
    };
    let drawn: u64 = random_between(low, high);
    let r = Delay::from_millis(drawn);
    assert(r.total() == drawn * 1_000_000);
    r
}

/// How often a failed request is sent again.
pub const MAX_RETRIES: usize = 3;

/// The seconds before a request is sent again that failed for a moment.
pub open spec fn transient_secs(attempt: int) -> u64 {
    if attempt <= 0 {
        5
    } else if attempt == 1 {
        10
    } else {
        20
    }
}

/// The seconds before a request is sent again that ran into a limit.
pub open spec fn secondary_secs(attempt: int) -> u64 {
    if attempt <= 0 {
        90
    } else if attempt == 1 {
        180
    } else {
        300
    }
}

fn transient_delay(attempt: usize) -> (r: Delay)
    ensures
        r == (Delay { secs: transient_secs(attempt as int), nanos: 0 }),
{
    Delay::from_secs(
        if attempt == 0 {
            5
        } else if attempt == 1 {
            10
        } else {
            20
        },
    )
}

fn secondary_delay(attempt: usize) -> (r: Delay)
    ensures
        r == (Delay { secs: secondary_secs(attempt as int), nanos: 0 }),
{
    Delay::from_secs(
        if attempt == 0 {
            90
        } else if attempt == 1 {
            180
        } else {
            300
        },
    )
}

/// The time until the budget is filled again, and a second more; five seconds where that time has
/// come already.
pub open spec fn reset_wait(reset: Timestamp, now: Timestamp) -> int {
    let gap = (reset.secs - now.secs) * 1_000_000_000 + reset.nanos - now.nanos;
    (if gap > 0 {
        gap
    } else {
        5_000_000_000
    }) + 1_000_000_000
}

/// The time until the budget is filled again, and a second more.
pub fn wait_for_reset(reset: Timestamp, now: Timestamp) -> (r: Delay)
    requires
        reset.on_clock(),
        now.on_clock(),
    ensures
        r.total() == reset_wait(reset, now),
        r.nanos < 1_000_000_000,
{
    if reset.secs < now.secs || (reset.secs == now.secs && reset.nanos <= now.nanos) {
        Delay { secs: 6, nanos: 0 }
    } else {
        let secs: u64 = (reset.secs as i128 - now.secs as i128) as u64;
        if reset.nanos >= now.nanos {
            Delay { secs: secs + 1, nanos: reset.nanos - now.nanos }
        } else {
            Delay { secs, nanos: reset.nanos + 1_000_000_000 - now.nanos }
        }
    }
}

/// A delay between two numbers of nanoseconds, both cut off at the longest delay.
pub open spec fn within_cap(d: Delay, low: int, high: int) -> bool {
    let most = MAX_RETRY_SECS * 1_000_000_000;
    &&& d.nanos < 1_000_000_000
    &&& (if low > most {
        most
    } else {
        low
    }) <= d.total()
    &&& d.total() <= (if high > most {
        most
    } else {
        high
    })
}

/// The delay of a request that ran into a limit: what the host asked for, spread upwards, or one
/// of our own, spread both ways; at most the longest delay. Where the budget that ran out has no
/// known time of refilling there is none.
pub open spec fn limit_delay(
    kind: RateLimitKind,
    attempt: int,
    stderr: Seq<char>,
    reset: Option<Timestamp>,
    now: Timestamp,
    d: Option<Delay>,
) -> bool {
    match kind {
        RateLimitKind::Primary => match reset {
            Some(t) => d matches Some(w) && ({
                let base = reset_wait(t, now);
                within_cap(w, base, base + base / 2)
            }),
            None => d is None,
        },
        RateLimitKind::Secondary => d matches Some(w) && (match asked_wait(stderr) {
            Some(secs) => within_cap(
                w,
                secs as int * 1_000_000_000,
                secs as int * 1_500_000_000,
            ),
            None => within_cap(
                w,
                secondary_secs(attempt) * 500_000_000,
                secondary_secs(attempt) * 1_500_000_000,
            ),
        }),
    }
}

/// The delay of a request that ran into a limit.
pub fn resolve_rate_limit_delay(
    kind: RateLimitKind,
    attempt: usize,
    stderr: &str,
    reset: Option<Timestamp>,
    now: Timestamp,
) -> (r: Option<Delay>)
    requires
        reset matches Some(t) ==> t.on_clock(),
        now.on_clock(),
    ensures
        limit_delay(kind, attempt as int, stderr@, reset, now, r),
{
    match kind {
        RateLimitKind::Primary => match reset {
            Some(t) => {
                let wait = wait_for_reset(t, now);
                Some(capped_delay(server_jittered_delay(wait)))
            },
            None => None,
        },
        RateLimitKind::Secondary => match parse_retry_after(stderr) {
            Some(asked) => Some(capped_delay(server_jittered_delay(asked))),
            None => Some(capped_delay(jittered_delay(secondary_delay(attempt)))),
        },
    }
}

/// What is said of an answer that should be JSON and is not.
pub open spec fn no_json(stdout: Seq<char>) -> Seq<char> {
    "failed to parse GitHub CLI JSON output: "@ + stdout
}

/// Refuses an answer that is no JSON.
pub fn require_json(stdout: &str) -> (r: Result<(), String>)
    ensures
        if json::is_json(stdout@) {
            r is Ok
        } else {
            r matches Err(e) && e@ == no_json(stdout@)
        },
{
    if json::reads_as_json(stdout) {
        Ok(())
    } else {
        let mut e = "failed to parse GitHub CLI JSON output: ".to_owned();
        e.append(stdout);
        Err(e)
    }
}

/// The login that an answer holds, or that it holds none.
pub fn found_login(login: Option<String>) -> (r: Result<String, String>)
    ensures
        match login {
            Some(l) => r == Ok::<String, String>(l),
            None => r matches Err(e) && e@ == "GitHub API response did not include `login`"@,
        },
{
    match login {
        Some(l) => Ok(l),
        None => Err("GitHub API response did not include `login`".to_owned()),
    }
}

/// The login of the user, by what the host answered to `GitHubClient::current_login`.
pub fn login_of(stdout: &str) -> (r: Result<String, String>)
    ensures
        if !json::is_json(stdout@) {
            r matches Err(e) && e@ == no_json(stdout@)
        } else {
            match json::member_text(stdout@, "login"@) {
                Some(l) => r matches Ok(login) && login@ == l,
                None => r matches Err(e) && e@ == "GitHub API response did not include `login`"@,
            }
        },
{
    match require_json(stdout) {
        Ok(()) => found_login(json::text_under(stdout, "login")),
        Err(e) => Err(e),
    }
}

/// Whether a repository has issues, where an answer says nothing else: it does.
pub fn found_issues(has_issues: Option<bool>) -> (r: bool)
    ensures
        r == (has_issues != Some(false)),
{
    match has_issues {
        Some(b) => b,
        None => true,
    }
}

/// Whether the repository has issues, by what the host answered to
/// `GitHubClient::repo_has_issues`.
pub fn issues_enabled(stdout: &str) -> (r: Result<bool, String>)
    ensures
        if json::is_json(stdout@) {
            r == Ok::<bool, String>(json::member_truth(stdout@, "has_issues"@) != Some(false))
        } else {
            r matches Err(e) && e@ == no_json(stdout@)
        },
{
    match require_json(stdout) {
        Ok(()) => Ok(found_issues(json::truth_under(stdout, "has_issues"))),
        Err(e) => Err(e),
    }
}

/// What follows a failed request.
#[derive(Debug)]
pub enum RetryStep {
    /// It is given up with this message.
    GiveUp(String),
    /// It is given up because of a limit.
    Limited(GitHubCliError),
    /// It is sent again after a delay.
    Again { reason: RetryReason, delay: Delay },
}

/// A delay that may come before a request is sent again.
pub open spec fn delay_allowed(
    reason: RetryReason,
    attempt: int,
    stderr: Seq<char>,
    reset: Option<Timestamp>,
    now: Timestamp,
    d: Delay,
) -> bool {
    match reason {
        RetryReason::Transient => transient_secs(attempt) * 500_000_000 <= d.total()
            <= transient_secs(attempt) * 1_500_000_000,
        RetryReason::RateLimited(kind) => if kind == RateLimitKind::Primary && reset is None {
            secondary_secs(attempt) * 500_000_000 <= d.total() <= secondary_secs(attempt)
                * 1_500_000_000
        } else {
            limit_delay(kind, attempt, stderr, reset, now, Some(d))
        },
    }
}

/// What follows the failure of a request that was sent `attempt` times before: it is given up
/// where nothing says that sending it again may help, or where it was sent again often enough.
pub fn after_failure(
    attempt: usize,
    stderr: String,
    idempotent: bool,
    reset: Option<Timestamp>,
    now: Timestamp,
) -> (r: RetryStep)
    requires
        reset matches Some(t) ==> t.on_clock(),
        now.on_clock(),
    ensures
        match retry_reason(stderr@, idempotent) {
            None => r matches RetryStep::GiveUp(m) && m@ == failure_message(stderr@),
            Some(reason) => if attempt < MAX_RETRIES {
                r matches RetryStep::Again { reason: why, delay } && why == reason
                    && delay_allowed(reason, attempt as int, stderr@, reset, now, delay)
            } else {
                match reason {
                    RetryReason::Transient => r matches RetryStep::GiveUp(m) && m@
                        == failure_message(stderr@),
                    RetryReason::RateLimited(limit) => r matches RetryStep::Limited(
                        GitHubCliError::RateLimited {
                            kind,
                            retry_after_secs,
                            attempts,
                            stderr: last,
                        },
                    ) && kind == limit && attempts == attempt && last == stderr && exists|d: Delay|
                        #[trigger] delay_allowed(reason, attempt as int, stderr@, reset, now, d)
                            && d.secs == retry_after_secs,
                }
            },
        },
{
    match classify_retry(stderr.as_str(), idempotent) {
        None => RetryStep::GiveUp(error_with_hint(stderr.as_str())),
        Some(reason) => {
            let delay = match reason {
                RetryReason::Transient => jittered_delay(transient_delay(attempt)),
                RetryReason::RateLimited(kind) => match resolve_rate_limit_delay(
                    kind,
                    attempt,
                    stderr.as_str(),
                    reset,
                    now,
                ) {
                    Some(d) => d,
                    None => jittered_delay(secondary_delay(attempt)),
                },
            };
            assert(delay_allowed(reason, attempt as int, stderr@, reset, now, delay));
            if attempt < MAX_RETRIES {
                return RetryStep::Again { reason, delay };
            }
            match reason {
                RetryReason::Transient => RetryStep::GiveUp(error_with_hint(stderr.as_str())),
                RetryReason::RateLimited(kind) => RetryStep::Limited(
                    GitHubCliError::RateLimited {
                        kind,
                        retry_after_secs: delay.secs,
                        attempts: attempt,
                        stderr,
                    },
                ),
            }
        },
    }
}

/// The notice before a request is sent again.
pub fn retry_notice(reason: RetryReason, delay: Delay) -> (r: String)
    ensures
        r@ == "GitHub CLI command hit a "@ + reason.words() + " condition. Retrying in "@
            + text::decimal(delay.secs as nat) + "s..."@,
{
    let mut r = "GitHub CLI command hit a ".to_owned();
    r.append(reason.text().as_str());
    r.append(" condition. Retrying in ");
    r.append(text::number(delay.secs).as_str());
    r.append("s...");
    r
}

} // verus!
