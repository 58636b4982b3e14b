//! What a node and a project are configured with.
use crate::cli::NodeOverrides;
use crate::comments::option_text;
use crate::globs;
use crate::globs::GlobError;
use crate::metric;
use crate::paths;
use crate::text;
use globset::GlobSet;
use vstd::prelude::*;
use vstd::string::*;

verus! {

/// Requests that a node may make in an hour.
pub const DEFAULT_API_BUDGET: u64 = 5_000;

/// Milliseconds between two requests.
pub const DEFAULT_REQUEST_DELAY_MS: u64 = 100;

/// The share of a machine that a node may use, in percent.
pub const DEFAULT_CAPACITY: u8 = 75;

/// What the program of an agent is started with where nothing is said.
pub const DEFAULT_AGENT_FLAGS: &'static str = " -p --dangerously-skip-permissions";

/// Seconds that an agent may run where nothing is said.
pub const DEFAULT_AGENT_TIMEOUT_SECS: u64 = 600;

/// The variable of the environment that names the node.
pub const NODE_ID_ENV_VAR: &'static str = "POLYRESEARCH_NODE_ID";

/// Which way a metric gets better.
#[derive(Clone, Copy, Debug, PartialEq, Eq, Structural)]
pub enum MetricDirection {
    HigherIsBetter,
    LowerIsBetter,
}

/// How a node runs its agent.
#[derive(Debug, PartialEq, Eq)]
pub struct AgentConfig {
    pub command: String,
    pub timeout_secs: u64,
}

impl Clone for AgentConfig {
    fn clone(&self) -> (r: Self)
        ensures
            r == *self,
    {
        AgentConfig { command: self.command.clone(), timeout_secs: self.timeout_secs }
    }
}

/// The command that starts an agent where nothing is said: its program and the usual flags.
pub fn default_agent_command(program: &str) -> (r: String)
    ensures
        r@ == program@ + DEFAULT_AGENT_FLAGS@,
{
    let mut r = program.to_owned();
    r.append(DEFAULT_AGENT_FLAGS);
    r
}

impl AgentConfig {
    /// What a node runs where nothing else is configured.
    pub open spec fn is_default(&self, program: Seq<char>) -> bool {
        self.command@ == program + DEFAULT_AGENT_FLAGS@ && self.timeout_secs
            == DEFAULT_AGENT_TIMEOUT_SECS
    }

    /// What a node runs where nothing else is configured: the program of an agent, with the usual
    /// flags and the usual time.
    pub fn default(program: &str) -> (r: Self)
        ensures
            r.is_default(program@),
    {
        AgentConfig {
            command: default_agent_command(program),
            timeout_secs: DEFAULT_AGENT_TIMEOUT_SECS,
        }
    }
}

/// What a node is configured with.
#[derive(Debug, PartialEq, Eq)]
pub struct NodeConfig {
    pub node_id: String,
    pub capacity: u8,
    pub api_budget: u64,
    pub request_delay_ms: u64,
    pub agent: AgentConfig,
}

impl Clone for NodeConfig {
    fn clone(&self) -> (r: Self)
        ensures
            r == *self,
    {
        NodeConfig {
            node_id: self.node_id.clone(),
            capacity: self.capacity,
            api_budget: self.api_budget,
            request_delay_ms: self.request_delay_ms,
            agent: self.agent.clone(),
        }
    }
}

/// A capacity in percent: none given means the default, and more than all means all.
pub open spec fn usable_capacity(capacity: u8) -> u8 {
    if capacity == 0 {
        DEFAULT_CAPACITY
    } else if capacity > 100 {
        100
    } else {
        capacity
    }
}

/// A budget of requests: none given means the default.
pub open spec fn usable_budget(budget: u64) -> u64 {
    if budget == 0 {
        DEFAULT_API_BUDGET
    } else {
        budget
    }
}

/// A delay between requests: none given means the default.
pub open spec fn usable_delay(delay: u64) -> u64 {
    if delay == 0 {
        DEFAULT_REQUEST_DELAY_MS
    } else {
        delay
    }
}

fn normalize_capacity(capacity: u8) -> (r: u8)
    ensures
        r == usable_capacity(capacity),
{
    if capacity == 0 {
        DEFAULT_CAPACITY
    } else if capacity > 100 {
        100
    } else {
        capacity
    }
}

fn normalize_api_budget(api_budget: u64) -> (r: u64)
    ensures
        r == usable_budget(api_budget),
{
    if api_budget == 0 {
        DEFAULT_API_BUDGET
    } else {
        api_budget
    }
}

fn normalize_request_delay_ms(request_delay_ms: u64) -> (r: u64)
    ensures
        r == usable_delay(request_delay_ms),
{
    if request_delay_ms == 0 {
        DEFAULT_REQUEST_DELAY_MS
    } else {
        request_delay_ms
    }
}

/// The name that the environment gives the node, if it gives one.
pub open spec fn named_node(value: Option<String>) -> Option<Seq<char>> {
    match value {
        Some(v) => if text::trimmed(v@).len() > 0 {
            Some(text::trimmed(v@))
        } else {
            None
        },
        None => None,
    }
}

/// The name that the environment gives the node, if it gives one.
pub fn node_id_override(value: &Option<String>) -> (r: Option<String>)
    ensures
        option_text(r) == named_node(*value),
{
    match value {
        Some(v) => {
            let trimmed = text::trim(v.as_str());
            if trimmed.unicode_len() > 0 {
                Some(trimmed.to_owned())
            } else {
                None
            }
        },
        None => None,
    }
}

impl NodeConfig {
    /// The values can be used as they are.
    pub open spec fn usable(&self) -> bool {
        &&& 1 <= self.capacity <= 100
        &&& self.api_budget > 0
        &&& self.request_delay_ms > 0
    }

    /// A configuration with usable values. Where no agent is given, it is the program with the usual
    /// flags.
    pub fn new(
        node_id: &str,
        capacity: u8,
        api_budget: u64,
        request_delay_ms: u64,
        agent: Option<AgentConfig>,
        program: &str,
    ) -> (r: Self)
        ensures
            r.node_id@ == node_id@,
            r.capacity == usable_capacity(capacity),
            r.api_budget == usable_budget(api_budget),
            r.request_delay_ms == usable_delay(request_delay_ms),
            match agent {
                Some(a) => r.agent == a,
                None => r.agent.is_default(program@),
            },
            r.usable(),
    {
        NodeConfig {
            node_id: node_id.to_owned(),
            capacity: normalize_capacity(capacity),
            api_budget: normalize_api_budget(api_budget),
            request_delay_ms: normalize_request_delay_ms(request_delay_ms),
            agent: match agent {
                Some(a) => a,
                None => AgentConfig::default(program),
            },
        }
    }

    /// The configuration of a node: its file, if there is one, with the name that the environment
    /// gives the node before the name in the file. A file that does not read counts for nothing
    /// where the environment names the node.
    pub fn load(
        path: &str,
        env_value: &Option<String>,
        file: Option<Result<NodeConfig, String>>,
        program: &str,
    ) -> (r: Result<Self, String>)
        ensures
            match (named_node(*env_value), file) {
                (None, Some(Err(e))) => r == Err::<NodeConfig, String>(e),
                (None, None) => r matches Err(m) && m@
                    == "node identity is not configured yet; run `polyresearch init` first"@,
                (None, Some(Ok(c))) => if text::trimmed(c.node_id@).len() == 0 {
                    r matches Err(m) && m@ == "node_id in "@ + path@ + " cannot be empty"@
                } else {
                    r matches Ok(n) && n.node_id@ == c.node_id@ && n.taken_from(c)
                },
                (Some(id), Some(Ok(c))) => r matches Ok(n) && n.node_id@ == id && n.taken_from(c),
                (Some(id), _) => r matches Ok(n) && n.node_id@ == id && n.taken_from_nothing(
                    program@,
                ),
            },
    {
        let env_node_id = node_id_override(env_value);
        let file_config: Option<NodeConfig> = match file {
            Some(Ok(c)) => Some(c),
            Some(Err(e)) => {
                if env_node_id.is_none() {
                    return Err(e);
                }
                None
            },
            None => None,
        };
        let node_id = match env_node_id {
            Some(id) => id,
            None => match &file_config {
                Some(c) => {
                    if text::trim(c.node_id.as_str()).unicode_len() == 0 {
                        let mut m = "node_id in ".to_owned();
                        m.append(path);
                        m.append(" cannot be empty");
                        return Err(m);
                    }
                    c.node_id.clone()
                },
                None => {
                    return Err(
                        "node identity is not configured yet; run `polyresearch init` first".to_owned(),
                    );
                },
            },
        };
        match file_config {
            Some(c) => Ok(
                NodeConfig::new(
                    node_id.as_str(),
                    c.capacity,
                    c.api_budget,
                    c.request_delay_ms,
                    Some(c.agent),
                    program,
                ),
            ),
            None => Ok(
                NodeConfig::new(
                    node_id.as_str(),
                    DEFAULT_CAPACITY,
                    DEFAULT_API_BUDGET,
                    DEFAULT_REQUEST_DELAY_MS,
                    None,
                    program,
                ),
            ),
        }
    }

    /// All but the name comes from a file.
    pub open spec fn taken_from(&self, c: NodeConfig) -> bool {
        &&& self.capacity == usable_capacity(c.capacity)
        &&& self.api_budget == usable_budget(c.api_budget)
        &&& self.request_delay_ms == usable_delay(c.request_delay_ms)
        &&& self.agent == c.agent
    }

    /// All but the name has its default.
    pub open spec fn taken_from_nothing(&self, program: Seq<char>) -> bool {
        &&& self.capacity == DEFAULT_CAPACITY
        &&& self.api_budget == DEFAULT_API_BUDGET
        &&& self.request_delay_ms == DEFAULT_REQUEST_DELAY_MS
        &&& self.agent.is_default(program)
    }

    /// The budget of requests that a file gives, where it reads.
    pub fn load_api_budget(file: Option<&NodeConfig>) -> (r: u64)
        ensures
            r == (match file {
                Some(c) => usable_budget(c.api_budget),
                None => DEFAULT_API_BUDGET,
            }),
    {
        match file {
            Some(c) => normalize_api_budget(c.api_budget),
            None => DEFAULT_API_BUDGET,
        }
    }

    /// The delay between requests that a file gives, where it reads.
    pub fn load_request_delay_ms(file: Option<&NodeConfig>) -> (r: u64)
        ensures
            r == (match file {
                Some(c) => usable_delay(c.request_delay_ms),
                None => DEFAULT_REQUEST_DELAY_MS,
            }),
    {
        match file {
            Some(c) => normalize_request_delay_ms(c.request_delay_ms),
            None => DEFAULT_REQUEST_DELAY_MS,
        }
    }

    /// The configuration with what the command line gives in place of its values.
    pub fn with_overrides(self, overrides: &NodeOverrides) -> (r: Self)
        ensures
            r.node_id == self.node_id,
            r.capacity == (match overrides.capacity {
                Some(c) => usable_capacity(c),
                None => self.capacity,
            }),
            r.api_budget == (match overrides.api_budget {
                Some(b) => usable_budget(b),
                None => self.api_budget,
            }),
            r.request_delay_ms == (match overrides.request_delay {
                Some(d) => usable_delay(d),
                None => self.request_delay_ms,
            }),
            r.agent.command == (match overrides.agent_command {
                Some(c) => c,
                None => self.agent.command,
            }),
            r.agent.timeout_secs == (match overrides.agent_timeout {
                Some(t) => t,
                None => self.agent.timeout_secs,
            }),
    {
        let mut r = self;
        if let Some(c) = overrides.capacity {
            r.capacity = normalize_capacity(c);
        }
        if let Some(b) = overrides.api_budget {
            r.api_budget = normalize_api_budget(b);
        }
        if let Some(d) = overrides.request_delay {
            r.request_delay_ms = normalize_request_delay_ms(d);
        }
        if let Some(command) = &overrides.agent_command {
            r.agent.command = command.clone();
        }
        if let Some(t) = overrides.agent_timeout {
            r.agent.timeout_secs = t;
        }
        r
    }

    /// The share of the machine that the node may use.
    pub fn effective_capacity(&self) -> (r: u8)
        ensures
            r == usable_capacity(self.capacity),
    {
        normalize_capacity(self.capacity)
    }

    /// The requests that the node may make in an hour.
    pub fn effective_api_budget(&self) -> (r: u64)
        ensures
            r == usable_budget(self.api_budget),
    {
        normalize_api_budget(self.api_budget)
    }

    /// The milliseconds between two requests of the node.
    pub fn effective_request_delay_ms(&self) -> (r: u64)
        ensures
            r == usable_delay(self.request_delay_ms),
    {
        normalize_request_delay_ms(self.request_delay_ms)
    }
}

/// A configuration that has been made usable is not changed by making it usable again.
pub proof fn normalizing_twice_changes_nothing(capacity: u8, budget: u64, delay: u64)
    ensures
        usable_capacity(usable_capacity(capacity)) == usable_capacity(capacity),
        usable_budget(usable_budget(budget)) == usable_budget(budget),
        usable_delay(usable_delay(delay)) == usable_delay(delay),
        1 <= usable_capacity(capacity) <= 100,
        usable_budget(budget) > 0,
        usable_delay(delay) > 0,
{
}

/// The file that holds the configuration of a node.
pub fn node_config_path(repo_root: &str) -> (r: String)
    ensures
        r@ == paths::joined(repo_root@, ".polyresearch-node.toml"@),
{
    paths::join(repo_root, ".polyresearch-node.toml")
}

/// A line of the text starts, behind white space, with `word`.
pub open spec fn line_starts(lines: Seq<Seq<char>>, word: Seq<char>) -> bool {
    exists|i: int| 0 <= i < lines.len() && text::begins(text::trimmed_start(#[trigger] lines[i]), word)
}

/// The warning about fields of a configuration file that are no longer read.
pub open spec fn legacy_warning(contents: Seq<char>) -> Seq<Seq<char>> {
    let agents = line_starts(text::lines_of(contents), "sub_agents"@);
    let policy = line_starts(text::lines_of(contents), "resource_policy"@);
    let first = seq!["warning: .polyresearch-node.toml contains legacy field(s):"@];
    let second = if agents {
        first.push(
            "  `sub_agents` is no longer read. Use `capacity` (integer 1..=100, percent of total machine; default 75)."@,
        )
    } else {
        first
    };
    let third = if policy {
        second.push(
            "  `resource_policy` is no longer read. Per-run guidance belongs in PROGRAM.md / PREPARE.md or the agent launch prompt."@,
        )
    } else {
        second
    };
    if agents || policy {
        third.push("  Running `polyresearch init` will drop these fields on the next save."@)
    } else {
        Seq::empty()
    }
}

fn has_line(lines: &Vec<String>, word: &str) -> (r: bool)
    ensures
        r == line_starts(text::texts(lines@), word@),
{
    let ghost all = text::texts(lines@);
    let mut i: usize = 0;
    while i < lines.len()
        invariant
            i <= lines.len(),
            all == text::texts(lines@),
            forall|j: int| 0 <= j < i ==> !text::begins(text::trimmed_start(#[trigger] all[j]), word@),
        decreases lines.len() - i,
    {
        assert(all[i as int] == lines@[i as int]@);
        if text::starts_with(text::trim_start(lines[i].as_str()), word) {
            return true;
        }
        i = i + 1;
    }
    false
}

/// The warning about fields of a configuration file that are no longer read; no line where there
/// is nothing to warn about.
pub fn warn_if_legacy_fields(contents: &str) -> (r: Vec<String>)
    ensures
        text::texts(r@) == legacy_warning(contents@),
{
    let lines: Vec<String> = text::lines(contents);
    let agents = has_line(&lines, "sub_agents");
    let policy = has_line(&lines, "resource_policy");
    let mut r: Vec<String> = Vec::new();
    if !agents && !policy {
        assert(text::texts(r@) =~= Seq::<Seq<char>>::empty());
        return r;
    }
    r.push("warning: .polyresearch-node.toml contains legacy field(s):".to_owned());
    if agents {
        r.push(
            "  `sub_agents` is no longer read. Use `capacity` (integer 1..=100, percent of total machine; default 75).".to_owned(),
        );
    }
    if policy {
        r.push(
            "  `resource_policy` is no longer read. Per-run guidance belongs in PROGRAM.md / PREPARE.md or the agent launch prompt.".to_owned(),
        );
    }
    r.push("  Running `polyresearch init` will drop these fields on the next save.".to_owned());
    assert(text::texts(r@) =~= legacy_warning(contents@));
    r
}

/// The rules of a project.
#[derive(Debug)]
pub struct ProtocolConfig {
    pub required_confirmations: u64,
    /// By how much a metric has to be better; a text that reads as a number.
    pub metric_tolerance: Option<String>,
    pub metric_direction: MetricDirection,
    /// The best value that the metric can have; a text that reads as a number.
    pub metric_bound: Option<String>,
    pub lead_github_login: Option<String>,
    pub maintainer_github_login: Option<String>,
    pub auto_approve: bool,
    /// Seconds that a claim lasts.
    pub assignment_timeout: u64,
    /// Seconds that a review may take.
    pub review_timeout: u64,
    pub min_queue_depth: usize,
    pub max_queue_depth: Option<usize>,
    pub cli_version: Option<String>,
    pub default_branch: Option<String>,
}

/// The contents of the rules of a project.
pub struct ConfigView {
    pub required_confirmations: u64,
    pub metric_tolerance: Option<Seq<char>>,
    pub metric_direction: MetricDirection,
    pub metric_bound: Option<Seq<char>>,
    pub lead_github_login: Option<Seq<char>>,
    pub maintainer_github_login: Option<Seq<char>>,
    pub auto_approve: bool,
    pub assignment_timeout: u64,
    pub review_timeout: u64,
    pub min_queue_depth: usize,
    pub max_queue_depth: Option<usize>,
    pub cli_version: Option<Seq<char>>,
    pub default_branch: Option<Seq<char>>,
}

impl View for ProtocolConfig {
    type V = ConfigView;

    open spec fn view(&self) -> ConfigView {
        ConfigView {
            required_confirmations: self.required_confirmations,
            metric_tolerance: option_text(self.metric_tolerance),
            metric_direction: self.metric_direction,
            metric_bound: option_text(self.metric_bound),
            lead_github_login: option_text(self.lead_github_login),
            maintainer_github_login: option_text(self.maintainer_github_login),
            auto_approve: self.auto_approve,
            assignment_timeout: self.assignment_timeout,
            review_timeout: self.review_timeout,
            min_queue_depth: self.min_queue_depth,
            max_queue_depth: self.max_queue_depth,
            cli_version: option_text(self.cli_version),
            default_branch: option_text(self.default_branch),
        }
    }
}

impl ConfigView {
    /// The rules where a project sets none.
    pub open spec fn standard() -> ConfigView {
        ConfigView {
            required_confirmations: 0,
            metric_tolerance: None,
            metric_direction: MetricDirection::HigherIsBetter,
            metric_bound: None,
            lead_github_login: None,
            maintainer_github_login: None,
            auto_approve: true,
            assignment_timeout: 86_400,
            review_timeout: 43_200,
            min_queue_depth: 5,
            max_queue_depth: None,
            cli_version: None,
            default_branch: None,
        }
    }
}

impl Default for ProtocolConfig {
    fn default() -> (r: Self)
        ensures
            r@ == ConfigView::standard(),
    {
        ProtocolConfig {
            required_confirmations: 0,
            metric_tolerance: None,
            metric_direction: MetricDirection::HigherIsBetter,
            metric_bound: None,
            lead_github_login: None,
            maintainer_github_login: None,
            auto_approve: true,
            assignment_timeout: 86_400,
            review_timeout: 43_200,
            min_queue_depth: 5,
            max_queue_depth: None,
            cli_version: None,
            default_branch: None,
        }
    }
}

/// The seconds in a unit of time.
pub open spec fn unit_seconds(c: char) -> Option<nat> {
    if c == 'h' {
        Some(3600)
    } else if c == 'd' {
        Some(86_400)
    } else if c == 'm' {
        Some(60)
    } else if c == 's' {
        Some(1)
    } else {
        None
    }
}

/// The seconds of a duration: a number and the letter of its unit. Otherwise the message why there
/// are none.
pub open spec fn duration_of(value: Seq<char>) -> Result<u64, Seq<char>> {
    let t = text::trimmed(value);
    if t.len() == 0 || unit_seconds(t.last()) is None {
        Err("unsupported duration format `"@ + t + "`"@)
    } else {
        let unit = unit_seconds(t.last())->Some_0;
        match text::read_number(t.drop_last(), u64::MAX as nat) {
            None => Err(text::number_fault(t.drop_last(), u64::MAX as nat)),
            Some(n) => if n * unit <= u64::MAX {
                Ok((n * unit) as u64)
            } else {
                Err("duration `"@ + t + "` is too long"@)
            },
        }
    }
}

/// The seconds of a duration.
pub fn parse_duration(value: &str) -> (r: Result<u64, String>)
    ensures
        match r {
            Ok(n) => duration_of(value@) == Ok::<u64, Seq<char>>(n),
            Err(e) => duration_of(value@) == Err::<u64, Seq<char>>(e@),
        },
{
    let t = text::trim(value);
    let n: usize = t.unicode_len();
    if n > 0 {
        let last: char = t.get_char(n - 1);
        let unit: u64 = if last == 'h' {
            3600
        } else if last == 'd' {
            86_400
        } else if last == 'm' {
            60
        } else if last == 's' {
            1
        } else {
            0
        };
        if unit > 0 {
            let digits = t.substring_char(0, n - 1);
            assert(digits@ =~= t@.drop_last());
            match text::parse_number(digits, u64::MAX) {
                Some(count) => {
                    let total: u128 = count as u128 * unit as u128;
                    assert(total == count * unit) by (nonlinear_arith)
                        requires
                            total == count as u128 * unit as u128,
                    ;
                    if total <= u64::MAX as u128 {
                        return Ok(total as u64);
                    }
                },
                None => {
                    return Err(text::explain_number(digits, u64::MAX));
                },
            }
            let mut e = "duration `".to_owned();
            e.append(t);
            e.append("` is too long");
            return Err(e);
        }
    }
    let mut e = "unsupported duration format `".to_owned();
    e.append(t);
    e.append("`");
    Err(e)
}

/// The truth value that a text says, or the message why it says none.
pub open spec fn bool_of(value: Seq<char>) -> Result<bool, Seq<char>> {
    let t = text::trimmed(value);
    if t == "true"@ {
        Ok(true)
    } else if t == "false"@ {
        Ok(false)
    } else {
        Err("invalid boolean value `"@ + t + "`"@)
    }
}

/// The truth value that a text says.
pub fn parse_bool(value: &str) -> (r: Result<bool, String>)
    ensures
        match r {
            Ok(b) => bool_of(value@) == Ok::<bool, Seq<char>>(b),
            Err(e) => bool_of(value@) == Err::<bool, Seq<char>>(e@),
        },
{
    let t = text::trim(value);
    if text::same(t, "true") {
        Ok(true)
    } else if text::same(t, "false") {
        Ok(false)
    } else {
        let mut e = "invalid boolean value `".to_owned();
        e.append(t);
        e.append("`");
        Err(e)
    }
}

/// A character of the name of a rule.
pub open spec fn is_name_char(c: char) -> bool {
    ('0' <= c <= '9') || ('A' <= c <= 'Z') || ('a' <= c <= 'z') || c == '_'
}

/// The name and the value that a line sets, if it sets one.
pub open spec fn setting(line: Seq<char>) -> Option<(Seq<char>, Seq<char>)> {
    let t = text::trimmed(line);
    if t.len() == 0 || t[0] == '#' {
        None
    } else {
        match text::cut(t, ":"@) {
            Some((k, v)) => {
                let key = text::trimmed(k);
                let value = text::trimmed(v);
                if key.len() > 0 && value.len() > 0 && forall|i: int|
                    0 <= i < key.len() ==> is_name_char(#[trigger] key[i]) {
                    Some((key, value))
                } else {
                    None
                }
            },
            None => None,
        }
    }
}

/// The message that a value does not do for a rule.
pub open spec fn bad_value(name: Seq<char>, value: Seq<char>) -> Seq<char> {
    "invalid "@ + name + " value `"@ + value + "`"@
}

impl ConfigView {
    /// The rules with one of them set, or the message why the value does not do.
    pub open spec fn set(self, key: Seq<char>, value: Seq<char>) -> Result<ConfigView, Seq<char>> {
        if key == "required_confirmations"@ {
            match text::read_number(value, u64::MAX as nat) {
                Some(n) => Ok(ConfigView { required_confirmations: n as u64, ..self }),
                None => Err(bad_value(key, value)),
            }
        } else if key == "metric_tolerance"@ {
            if metric::number_literal(value) {
                Ok(ConfigView { metric_tolerance: Some(value), ..self })
            } else {
                Err(bad_value(key, value))
            }
        } else if key == "metric_direction"@ {
            if value == "higher_is_better"@ {
                Ok(ConfigView { metric_direction: MetricDirection::HigherIsBetter, ..self })
            } else if value == "lower_is_better"@ {
                Ok(ConfigView { metric_direction: MetricDirection::LowerIsBetter, ..self })
            } else {
                Err("invalid metric_direction `"@ + value + "`"@)
            }
        } else if key == "metric_bound"@ {
            if metric::number_literal(value) {
                Ok(ConfigView { metric_bound: Some(value), ..self })
            } else {
                Err(bad_value(key, value))
            }
        } else if key == "lead_github_login"@ {
            if value == "replace-me"@ {
                Ok(self)
            } else {
                Ok(ConfigView { lead_github_login: Some(value), ..self })
            }
        } else if key == "maintainer_github_login"@ {
            if value == "replace-me"@ {
                Ok(self)
            } else {
                Ok(ConfigView { maintainer_github_login: Some(value), ..self })
            }
        } else if key == "auto_approve"@ {
            match bool_of(value) {
                Ok(b) => Ok(ConfigView { auto_approve: b, ..self }),
                Err(e) => Err(e),
            }
        } else if key == "assignment_timeout"@ {
            match duration_of(value) {
                Ok(d) => Ok(ConfigView { assignment_timeout: d, ..self }),
                Err(e) => Err(e),
            }
        } else if key == "review_timeout"@ {
            match duration_of(value) {
                Ok(d) => Ok(ConfigView { review_timeout: d, ..self }),
                Err(e) => Err(e),
            }
        } else if key == "min_queue_depth"@ {
            match text::read_number(value, usize::MAX as nat) {
                Some(n) => Ok(ConfigView { min_queue_depth: n as usize, ..self }),
                None => Err(bad_value(key, value)),
            }
        } else if key == "max_queue_depth"@ {
            match text::read_number(value, usize::MAX as nat) {
                Some(n) => Ok(ConfigView { max_queue_depth: Some(n as usize), ..self }),
                None => Err(bad_value(key, value)),
            }
        } else if key == "cli_version"@ {
            Ok(ConfigView { cli_version: Some(value), ..self })
        } else if key == "default_branch"@ {
            Ok(ConfigView { default_branch: Some(value), ..self })
        } else {
            Ok(self)
        }
    }

    /// The rules that lines set, one after the other, or the first message why one does not do.
    pub open spec fn of_lines(lines: Seq<Seq<char>>) -> Result<ConfigView, Seq<char>>
        decreases lines.len(),
    {
        if lines.len() == 0 {
            Ok(ConfigView::standard())
        } else {
            match ConfigView::of_lines(lines.drop_last()) {
                Ok(c) => match setting(lines.last()) {
                    Some((key, value)) => c.set(key, value),
                    None => Ok(c),
                },
                Err(e) => Err(e),
            }
        }
    }
}

proof fn lemma_error_stays(lines: Seq<Seq<char>>, i: int)
    requires
        0 <= i <= lines.len(),
        ConfigView::of_lines(lines.take(i)) is Err,
    ensures
        ConfigView::of_lines(lines) == ConfigView::of_lines(lines.take(i)),
    decreases lines.len() - i,
{
    if i < lines.len() {
        assert(lines.take(i + 1).drop_last() =~= lines.take(i));
        lemma_error_stays(lines, i + 1);
    } else {
        assert(lines.take(i) =~= lines);
    }
}

fn bad_value_message(name: &str, value: &str) -> (r: String)
    ensures
        r@ == bad_value(name@, value@),
{
    let mut e = "invalid ".to_owned();
    e.append(name);
    e.append(" value `");
    e.append(value);
    e.append("`");
    e
}

fn read_setting(line: &str) -> (r: Option<(&str, &str)>)
    ensures
        match r {
            Some((k, v)) => setting(line@) == Some((k@, v@)),
            None => setting(line@) is None,
        },
{
    let t = text::trim(line);
    if t.unicode_len() == 0 || t.get_char(0) == '#' {
        return None;
    }
    match text::split_once(t, ":") {
        Some((k, v)) => {
            let key = text::trim(k);
            let value = text::trim(v);
            if key.unicode_len() == 0 || value.unicode_len() == 0 {
                return None;
            }
            let chars: Vec<char> = text::chars_of(key);
            let mut i: usize = 0;
            while i < chars.len()
                invariant
                    i <= chars.len(),
                    chars@ == key@,
                    t@ == text::trimmed(line@),
                    t@.len() > 0,
                    t@[0] != '#',
                    text::cut(t@, ":"@) == Some((k@, v@)),
                    key@ == text::trimmed(k@),
                    forall|j: int| 0 <= j < i ==> is_name_char(#[trigger] key@[j]),
                decreases chars.len() - i,
            {
                let c: char = chars[i];
                if !((c >= '0' && c <= '9') || (c >= 'A' && c <= 'Z') || (c >= 'a' && c <= 'z')
                    || c == '_') {
                    assert(!is_name_char(key@[i as int]));
                    return None;
                }
                i = i + 1;
            }
            Some((key, value))
        },
        None => None,
    }
}

impl ProtocolConfig {
    fn set(&mut self, key: &str, value: &str) -> (r: Result<(), String>)
        ensures
            match old(self)@.set(key@, value@) {
                Ok(c) => r is Ok && final(self)@ == c,
                Err(e) => r matches Err(m) && m@ == e,
            },
    {
        if text::same(key, "required_confirmations") {
            match text::parse_number(value, u64::MAX) {
                Some(n) => {
                    self.required_confirmations = n;
                },
                None => {
                    return Err(bad_value_message(key, value));
                },
            }
        } else if text::same(key, "metric_tolerance") {
            if !metric::is_number_literal(value) {
                return Err(bad_value_message(key, value));
            }
            self.metric_tolerance = Some(value.to_owned());
        } else if text::same(key, "metric_direction") {
            if text::same(value, "higher_is_better") {
                self.metric_direction = MetricDirection::HigherIsBetter;
            } else if text::same(value, "lower_is_better") {
                self.metric_direction = MetricDirection::LowerIsBetter;
            } else {
                let mut e = "invalid metric_direction `".to_owned();
                e.append(value);
                e.append("`");
                return Err(e);
            }
        } else if text::same(key, "metric_bound") {
            if !metric::is_number_literal(value) {
                return Err(bad_value_message(key, value));
            }
            self.metric_bound = Some(value.to_owned());
        } else if text::same(key, "lead_github_login") {
            if !text::same(value, "replace-me") {
                self.lead_github_login = Some(value.to_owned());
            }
        } else if text::same(key, "maintainer_github_login") {
            if !text::same(value, "replace-me") {
                self.maintainer_github_login = Some(value.to_owned());
            }
        } else if text::same(key, "auto_approve") {
            match parse_bool(value) {
                Ok(b) => {
                    self.auto_approve = b;
                },
                Err(e) => {
                    return Err(e);
                },
            }
        } else if text::same(key, "assignment_timeout") {
            match parse_duration(value) {
                Ok(d) => {
                    self.assignment_timeout = d;
                },
                Err(e) => {
                    return Err(e);
                },
            }
        } else if text::same(key, "review_timeout") {
            match parse_duration(value) {
                Ok(d) => {
                    self.review_timeout = d;
                },
                Err(e) => {
                    return Err(e);
                },
            }
        } else if text::same(key, "min_queue_depth") {
            match text::parse_number(value, usize::MAX as u64) {
                Some(n) => {
                    self.min_queue_depth = n as usize;
                },
                None => {
                    return Err(bad_value_message(key, value));
                },
            }
        } else if text::same(key, "max_queue_depth") {
            match text::parse_number(value, usize::MAX as u64) {
                Some(n) => {
                    self.max_queue_depth = Some(n as usize);
                },
                None => {
                    return Err(bad_value_message(key, value));
                },
            }
        } else if text::same(key, "cli_version") {
            self.cli_version = Some(value.to_owned());
        } else if text::same(key, "default_branch") {
            self.default_branch = Some(value.to_owned());
        }
        Ok(())
    }

    /// The rules that the program of a project sets. Without a program all rules are the standard
    /// ones.
    pub fn load(program: Option<&str>) -> (r: Result<Self, String>)
        ensures
            ({
                let lines = match program {
                    Some(contents) => text::lines_of(contents@),
                    None => Seq::empty(),
                };
                match ConfigView::of_lines(lines) {
                    Ok(c) => r matches Ok(config) && config@ == c,
                    Err(e) => r matches Err(m) && m@ == e,
                }
            }),
    {
        let mut config = ProtocolConfig::default();
        match program {
            Some(contents) => {
                let lines: Vec<String> = text::lines(contents);
                let ghost all = text::texts(lines@);
                let mut i: usize = 0;
                assert(all.take(0).len() == 0);
                while i < lines.len()
                    invariant
                        i <= lines.len(),
                        all == text::texts(lines@),
                        all == text::lines_of(contents@),
                        program == Some(contents),
                        ConfigView::of_lines(all.take(i as int)) == Ok::<ConfigView, Seq<char>>(
                            config@,
                        ),
                    decreases lines.len() - i,
                {
                    proof {
                        assert(all.take(i + 1).drop_last() =~= all.take(i as int));
                        assert(all.take(i + 1).last() == lines@[i as int]@);
                    }
                    match read_setting(lines[i].as_str()) {
                        Some((key, value)) => match config.set(key, value) {
                            Ok(()) => {},
                            Err(e) => {
                                proof {
                                    lemma_error_stays(all, i + 1);
                                }
                                return Err(e);
                            },
                        },
                        None => {},
                    }
                    i = i + 1;
                }
                assert(all.take(i as int) =~= all);
            },
            None => {},
        }
        Ok(config)
    }

    /// The best value that the metric can have.
    pub fn resolved_metric_bound(&self) -> (r: String)
        ensures
            r@ == (match self.metric_bound {
                Some(b) => b@,
                None => match self.metric_direction {
                    MetricDirection::LowerIsBetter => "0"@,
                    MetricDirection::HigherIsBetter => "1"@,
                },
            }),
    {
        match &self.metric_bound {
            Some(b) => b.clone(),
            None => match self.metric_direction {
                MetricDirection::LowerIsBetter => "0".to_owned(),
                MetricDirection::HigherIsBetter => "1".to_owned(),
            },
        }
    }

    /// By how much a metric has to be better.
    pub fn tolerance(&self) -> (r: Result<String, String>)
        ensures
            match self.metric_tolerance {
                Some(t) => r == Ok::<String, String>(t),
                None => r matches Err(e) && e@ == "metric_tolerance is required in PROGRAM.md"@,
            },
    {
        match &self.metric_tolerance {
            Some(t) => Ok(t.clone()),
            None => Err("metric_tolerance is required in PROGRAM.md".to_owned()),
        }
    }

    /// Who leads the project.
    pub fn lead_login(&self) -> (r: Result<String, String>)
        ensures
            match self.lead_github_login {
                Some(t) => r == Ok::<String, String>(t),
                None => r matches Err(e) && e@ == "lead_github_login is required in PROGRAM.md"@,
            },
    {
        match &self.lead_github_login {
            Some(t) => Ok(t.clone()),
            None => Err("lead_github_login is required in PROGRAM.md".to_owned()),
        }
    }

    /// Who maintains the project.
    pub fn maintainer_login(&self) -> (r: Result<String, String>)
        ensures
            match self.maintainer_github_login {
                Some(t) => r == Ok::<String, String>(t),
                None => r matches Err(e) && e@
                    == "maintainer_github_login is required in PROGRAM.md"@,
            },
    {
        match &self.maintainer_github_login {
            Some(t) => Ok(t.clone()),
            None => Err("maintainer_github_login is required in PROGRAM.md".to_owned()),
        }
    }

    /// Checks that the tool has the version that the project asks for, where it asks for one.
    pub fn check_cli_version(&self, current: &str) -> (r: Result<(), String>)
        ensures
            match self.cli_version {
                Some(required) => if required@ == current@ {
                    r is Ok
                } else {
                    r matches Err(e) && e@ == "this project requires polyresearch CLI v"@
                        + required@ + ", but you are running v"@ + current@
                },
                None => r is Ok,
            },
    {
        match &self.cli_version {
            Some(required) => {
                if text::same(current, required.as_str()) {
                    return Ok(());
                }
                let mut e = "this project requires polyresearch CLI v".to_owned();
                e.append(required.as_str());
                e.append(", but you are running v");
                e.append(current);
                Err(e)
            },
            None => Ok(()),
        }
    }

    /// The branch that candidates are merged into: the one that the project names, else the one
    /// that the checkout shows.
    pub fn resolve_default_branch(&self, git_output: Option<&str>) -> (r: String)
        ensures
            r@ == (match self.default_branch {
                Some(b) => b@,
                None => branch_shown(git_output),
            }),
    {
        match &self.default_branch {
            Some(b) => b.clone(),
            None => detect_default_branch_from_git(git_output),
        }
    }
}

/// The default branch that git shows: its answer without the name of the remote, or `main` where
/// it has none.
pub open spec fn branch_shown(git_output: Option<&str>) -> Seq<char> {
    match git_output {
        Some(raw) => {
            let t = text::trimmed(raw@);
            let branch = match text::after_prefix(t, "origin/"@) {
                Some(b) => b,
                None => t,
            };
            if branch.len() > 0 {
                branch
            } else {
                "main"@
            }
        },
        None => "main"@,
    }
}

/// The default branch that git shows; the output is there only where git succeeded.
pub fn detect_default_branch_from_git(git_output: Option<&str>) -> (r: String)
    ensures
        r@ == branch_shown(git_output),
{
    match git_output {
        Some(raw) => {
            let t = text::trim(raw);
            let branch = match text::strip_prefix(t, "origin/") {
                Some(b) => b,
                None => t,
            };
            if branch.unicode_len() > 0 {
                branch.to_owned()
            } else {
                "main".to_owned()
            }
        },
        None => "main".to_owned(),
    }
}

/// Which files a program may change.
#[derive(Debug)]
pub struct ProgramSpec {
    pub can_modify: Vec<String>,
    pub cannot_modify: Vec<String>,
}

/// A pattern as it is matched: a directory stands for all that it holds.
pub open spec fn as_glob(pattern: Seq<char>) -> Seq<char> {
    if text::ends(pattern, "/"@) {
        pattern + "**"@
    } else {
        pattern
    }
}

/// Patterns as they are matched.
pub open spec fn as_globs(patterns: Seq<Seq<char>>) -> Seq<Seq<char>> {
    patterns.map_values(|p: Seq<char>| as_glob(p))
}

fn normalize_program_pattern(pattern: &str) -> (r: String)
    ensures
        r@ == as_glob(pattern@),
{
    let mut r = pattern.to_owned();
    if text::ends_with(pattern, "/") {
        r.append("**");
    }
    r
}

fn normalize_all(patterns: &Vec<String>) -> (r: Vec<String>)
    ensures
        text::texts(r@) == as_globs(text::texts(patterns@)),
{
    let ghost all = as_globs(text::texts(patterns@));
    let mut r: Vec<String> = Vec::new();
    let mut i: usize = 0;
    while i < patterns.len()
        invariant
            i <= patterns.len(),
            all == as_globs(text::texts(patterns@)),
            text::texts(r@) =~= all.take(i as int),
        decreases patterns.len() - i,
    {
        let ghost before = r@;
        r.push(normalize_program_pattern(patterns[i].as_str()));
        proof {
            text::lemma_texts_push(before, r@.last());
            assert(all[i as int] == as_glob(text::texts(patterns@)[i as int]));
            assert(text::texts(patterns@)[i as int] == patterns@[i as int]@);
            assert(all.take(i + 1) =~= all.take(i as int).push(all[i as int]));
        }
        i = i + 1;
    }
    assert(all.take(i as int) =~= all);
    r
}

/// A single pattern matches the path.
pub open spec fn guards(pattern: Seq<char>, path: Seq<char>) -> bool {
    let glob = as_glob(pattern);
    globs::is_pattern(glob) && globs::fits(seq![glob]) && globs::matches_path(glob, path)
}

/// A single pattern is the path, or the directory that holds it.
pub open spec fn covers(pattern: Seq<char>, path: Seq<char>) -> bool {
    globs::names(as_glob(pattern), path)
}

impl ProgramSpec {
    /// A program from its two lists of patterns.
    pub fn from_globs(can_modify: Vec<String>, cannot_modify: Vec<String>) -> (r: Self)
        ensures
            r.can_modify == can_modify,
            r.cannot_modify == cannot_modify,
    {
        ProgramSpec { can_modify, cannot_modify }
    }

    /// The program that a text describes.
    pub fn load(contents: &str) -> (r: Self)
        ensures
            text::texts(r.can_modify@) == list_under(
                text::lines_of(contents@),
                "## What you CAN modify"@,
            ).items,
            text::texts(r.cannot_modify@) == list_under(
                text::lines_of(contents@),
                "## What you CANNOT modify"@,
            ).items,
    {
        let can_modify: Vec<String> = parse_markdown_list(contents, "## What you CAN modify");
        let cannot_modify: Vec<String> = parse_markdown_list(
            contents,
            "## What you CANNOT modify",
        );
        ProgramSpec::from_globs(can_modify, cannot_modify)
    }

    /// The patterns of the files that the program may change, as a set.
    pub fn editable_globset(&self) -> (r: Result<GlobSet, String>)
        ensures
            ({
                let patterns = text::texts(self.can_modify@);
                match globs::first_bad(as_globs(patterns), 0) {
                    Some(i) => r matches Err(e) && e@ == "invalid editable glob pattern `"@
                        + patterns[i] + "`"@,
                    None => if globs::fits(as_globs(patterns)) {
                        r matches Ok(s) && globs::members(s) == as_globs(patterns)
                    } else {
                        r is Err
                    },
                }
            }),
    {
        let globs: Vec<String> = normalize_all(&self.can_modify);
        match globs::compile(&globs) {
            Ok(set) => Ok(set),
            Err(GlobError::Pattern(k)) => {
                proof {
                    globs::lemma_first_bad(as_globs(text::texts(self.can_modify@)), 0);
                }
                let mut e = "invalid editable glob pattern `".to_owned();
                e.append(self.can_modify[k].as_str());
                e.append("`");
                Err(e)
            },
            Err(GlobError::Room(e)) => Err(e),
        }
    }

    /// Whether the program may change a file: one of its patterns matches the path.
    pub fn is_editable(&self, file_path: &str) -> (r: Result<bool, String>)
        ensures
            ({
                let patterns = text::texts(self.can_modify@);
                match globs::first_bad(as_globs(patterns), 0) {
                    Some(i) => r matches Err(e) && e@ == "invalid editable glob pattern `"@
                        + patterns[i] + "`"@,
                    None => if globs::fits(as_globs(patterns)) {
                        r == Ok::<bool, String>(
                            globs::one_matches(as_globs(patterns), file_path@),
                        )
                    } else {
                        r is Err
                    },
                }
            }),
    {
        match self.editable_globset() {
            Ok(set) => Ok(globs::is_match(&set, file_path)),
            Err(e) => Err(e),
        }
    }

    /// Whether a file is protected: one of the patterns that guard files matches the path. A text
    /// that is no pattern guards nothing.
    pub fn is_protected(&self, file_path: &str) -> (r: bool)
        ensures
            r == (exists|i: int|
                0 <= i < self.cannot_modify@.len() && guards(
                    (#[trigger] self.cannot_modify@[i])@,
                    file_path@,
                )),
            (exists|i: int|
                0 <= i < self.cannot_modify@.len() && covers(
                    (#[trigger] self.cannot_modify@[i])@,
                    file_path@,
                )) ==> r,
    {
        let mut i: usize = 0;
        while i < self.cannot_modify.len()
            invariant
                i <= self.cannot_modify.len(),
                forall|j: int|
                    0 <= j < i ==> !guards((#[trigger] self.cannot_modify@[j])@, file_path@),
                forall|j: int|
                    0 <= j < i ==> !covers((#[trigger] self.cannot_modify@[j])@, file_path@),
            decreases self.cannot_modify.len() - i,
        {
            let one: Vec<String> = vec![
                normalize_program_pattern(self.cannot_modify[i].as_str()),
            ];
            let ghost glob = as_glob(self.cannot_modify@[i as int]@);
            assert(text::texts(one@) =~= seq![glob]);
            match globs::compile(&one) {
                Ok(set) => {
                    proof {
                        globs::lemma_first_bad(seq![glob], 0);
                        assert(globs::is_pattern(seq![glob][0]));
                    }
                    if globs::is_match(&set, file_path) {
                        assert(guards(self.cannot_modify@[i as int]@, file_path@));
                        return true;
                    }
                    assert(!globs::matches_path(seq![glob][0], file_path@));
                },
                Err(_) => {
                    proof {
                        globs::lemma_first_bad(seq![glob], 0);
                    }
                },
            }
            i = i + 1;
        }
        false
    }
}

/// What reading a list has come to: whether the lines stand under the heading, and the items.
pub struct ListView {
    pub in_section: bool,
    pub items: Seq<Seq<char>>,
}

/// A list item without its description: what stands before the first dash between blanks.
pub open spec fn without_description(item: Seq<char>) -> Seq<char> {
    let em = text::find_from(item, " \u{2014} "@, 0);
    let en = text::find_from(item, " \u{2013} "@, 0);
    let hyphen = text::find_from(item, " - "@, 0);
    match earliest(earliest(em, en), hyphen) {
        Some(i) => item.take(i),
        None => item,
    }
}

/// The smaller of two positions that may be missing.
pub open spec fn earliest(a: Option<int>, b: Option<int>) -> Option<int> {
    match (a, b) {
        (Some(x), Some(y)) => Some(
            if x <= y {
                x
            } else {
                y
            },
        ),
        (Some(x), None) => Some(x),
        (None, y) => y,
    }
}

/// What stands between the first two backticks, if it is anything.
pub open spec fn between_backticks(item: Seq<char>) -> Option<Seq<char>> {
    match text::cut(item, "`"@) {
        Some((_, rest)) => match text::cut(rest, "`"@) {
            Some((content, _)) => if text::trimmed(content).len() > 0 {
                Some(text::trimmed(content))
            } else {
                None
            },
            None => None,
        },
        None => None,
    }
}

/// A text without backticks at its start.
pub open spec fn without_leading_backticks(s: Seq<char>) -> Seq<char>
    decreases s.len(),
{
    if s.len() > 0 && s[0] == '`' {
        without_leading_backticks(s.drop_first())
    } else {
        s
    }
}

/// The pattern that a list item gives.
pub open spec fn item_pattern(item: Seq<char>) -> Option<Seq<char>> {
    let pattern = text::trimmed(without_description(item));
    match between_backticks(pattern) {
        Some(c) => Some(c),
        None => {
            let value = text::without_trailing(without_leading_backticks(pattern), '`');
            if value.len() > 0 {
                Some(value)
            } else {
                None
            }
        },
    }
}

/// The items that stand under a heading.
pub open spec fn list_under(lines: Seq<Seq<char>>, heading: Seq<char>) -> ListView
    decreases lines.len(),
{
    if lines.len() == 0 {
        ListView { in_section: false, items: Seq::empty() }
    } else {
        let before = list_under(lines.drop_last(), heading);
        let t = text::trimmed(lines.last());
        if text::begins(t, "## "@) {
            ListView { in_section: t == heading, items: before.items }
        } else if !before.in_section {
            before
        } else {
            match text::after_prefix(t, "- "@) {
                Some(item) => match item_pattern(item) {
                    Some(p) => ListView { in_section: true, items: before.items.push(p) },
                    None => before,
                },
                None => before,
            }
        }
    }
}

/// The items of the list under a heading.
pub fn parse_markdown_list(contents: &str, heading: &str) -> (r: Vec<String>)
    ensures
        text::texts(r@) == list_under(text::lines_of(contents@), heading@).items,
{
    let lines: Vec<String> = text::lines(contents);
    let ghost all = text::texts(lines@);
    let mut items: Vec<String> = Vec::new();
    let mut in_section = false;
    let mut i: usize = 0;
    assert(all.take(0).len() == 0);
    assert(text::texts(items@) =~= Seq::<Seq<char>>::empty());
    while i < lines.len()
        invariant
            i <= lines.len(),
            all == text::texts(lines@),
            list_under(all.take(i as int), heading@) == (ListView {
                in_section,
                items: text::texts(items@),
            }),
        decreases lines.len() - i,
    {
        proof {
            assert(all.take(i + 1).drop_last() =~= all.take(i as int));
            assert(all.take(i + 1).last() == lines@[i as int]@);
        }
        let trimmed = text::trim(lines[i].as_str());
        if text::starts_with(trimmed, "## ") {
            in_section = text::same(trimmed, heading);
        } else if in_section {
            match text::strip_prefix(trimmed, "- ") {
                Some(item) => match parse_markdown_item(item) {
                    Some(p) => {
                        proof {
                            text::lemma_texts_push(items@, p);
                        }
                        items.push(p);
                    },
                    None => {},
                },
                None => {},
            }
        }
        i = i + 1;
    }
    assert(all.take(i as int) =~= all);
    items
}

/// The pattern that a list item gives.
pub fn parse_markdown_item(item: &str) -> (r: Option<String>)
    ensures
        option_text(r) == item_pattern(item@),
{
    let pattern = text::trim(strip_markdown_item_description(item));
    match extract_backtick_content(pattern) {
        Some(c) => {
            return Some(c);
        },
        None => {},
    }
    let v: Vec<char> = text::chars_of(pattern);
    let n: usize = v.len();
    let mut i: usize = 0;
    assert(pattern@.skip(0) =~= pattern@);
    while i < n && v[i] == '`'
        invariant
            n == v.len(),
            v@ == pattern@,
            i <= n,
            without_leading_backticks(pattern@) == without_leading_backticks(
                pattern@.skip(i as int),
            ),
        decreases n - i,
    {
        assert(pattern@.skip(i as int).drop_first() =~= pattern@.skip(i + 1));
        i = i + 1;
    }
    let rest = pattern.substring_char(i, n);
    assert(rest@ =~= pattern@.skip(i as int));
    let value = text::trim_end_char(rest, '`');
    if value.unicode_len() > 0 {
        Some(value.to_owned())
    } else {
        None
    }
}

fn extract_backtick_content(item: &str) -> (r: Option<String>)
    ensures
        option_text(r) == between_backticks(item@),
{
    match text::split_once(item, "`") {
        Some((_, rest)) => match text::split_once(rest, "`") {
            Some((content, _)) => {
                let t = text::trim(content);
                if t.unicode_len() > 0 {
                    Some(t.to_owned())
                } else {
                    None
                }
            },
            None => None,
        },
        None => None,
    }
}

fn smaller(a: Option<usize>, b: Option<usize>) -> (r: Option<usize>)
    ensures
        match r {
            Some(x) => earliest(position(a), position(b)) == Some(x as int),
            None => earliest(position(a), position(b)) is None,
        },
        r == a || r == b,
{
    match (a, b) {
        (Some(x), Some(y)) => if x <= y {
            Some(x)
        } else {
            Some(y)
        },
        (Some(x), None) => Some(x),
        (None, y) => y,
    }
}

/// A position that was found.
pub open spec fn position(p: Option<usize>) -> Option<int> {
    match p {
        Some(x) => Some(x as int),
        None => None,
    }
}

fn strip_markdown_item_description(item: &str) -> (r: &str)
    ensures
        r@ == without_description(item@),
{
    let em: Option<usize> = text::find(item, " \u{2014} ");
    let en: Option<usize> = text::find(item, " \u{2013} ");
    let hyphen: Option<usize> = text::find(item, " - ");
    proof {
        text::lemma_find_from(item@, " \u{2014} "@, 0);
        text::lemma_find_from(item@, " \u{2013} "@, 0);
        text::lemma_find_from(item@, " - "@, 0);
    }
    match smaller(smaller(em, en), hyphen) {
        Some(i) => {
            assert(item@.subrange(0, i as int) =~= item@.take(i as int));
            item.substring_char(0, i)
        },
        None => item,
    }
}

} // verus!
