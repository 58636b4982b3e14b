//! What holds of what nodes and projects are configured with.
use crate::cli::NodeOverrides;
use crate::config;
use crate::config::{AgentConfig, ConfigView, MetricDirection, NodeConfig, ProgramSpec, ProtocolConfig};
use crate::text;
use vstd::prelude::*;

verus! {

/// A node's values can be used: what is zero becomes the default, a capacity of more than all becomes
/// all, and every other value stays as it was given.
pub proof fn a_new_node_has_usable_values(
    name: &str,
    capacity: u8,
    budget: u64,
    delay: u64,
    agent: Option<AgentConfig>,
    program: &str,
    r: NodeConfig,
)
    requires
        call_ensures(NodeConfig::new, (name, capacity, budget, delay, agent, program), r),
    ensures
        r.node_id@ == name@,
        1 <= r.capacity <= 100,
        1 <= capacity <= 100 ==> r.capacity == capacity,
        capacity > 100 ==> r.capacity == 100,
        capacity == 0 ==> r.capacity == 75,
        budget > 0 ==> r.api_budget == budget,
        budget == 0 ==> r.api_budget == 5000,
        delay > 0 ==> r.request_delay_ms == delay,
        delay == 0 ==> r.request_delay_ms == 100,
        agent is Some ==> r.agent == agent->Some_0,
        agent is None ==> r.agent.timeout_secs == 600 && text::begins(r.agent.command@, program@),
{
    if agent is None {
        assert(r.agent.command@.take(program@.len() as int) =~= program@);
    }
}

/// The name that the environment gives a node comes before the one in its file, and everything else
/// comes from the file where it reads. Without a name there is no node.
pub proof fn whose_name_a_node_bears(
    path: &str,
    env: Option<String>,
    file: Option<Result<NodeConfig, String>>,
    program: &str,
    given: Option<String>,
    r: Result<NodeConfig, String>,
)
    requires
        call_ensures(NodeConfig::load, (path, &env, file, program), r),
        call_ensures(config::node_id_override, (&env,), given),
    ensures
        given is Some ==> r is Ok && r->Ok_0.node_id@ == given->Some_0@,
        given is None ==> (r is Ok <==> (file matches Some(f) && (f matches Ok(c) && text::trimmed(
            c.node_id@,
        ).len() > 0))),
        given is None && r is Ok ==> (file matches Some(f) && (f matches Ok(c) && r->Ok_0.node_id@
            == c.node_id@)),
        r is Ok && file is Some && file->Some_0 is Ok ==> {
            let c = file->Some_0->Ok_0;
            let n = r->Ok_0;
            &&& n.agent == c.agent
            &&& c.api_budget > 0 ==> n.api_budget == c.api_budget
            &&& c.request_delay_ms > 0 ==> n.request_delay_ms == c.request_delay_ms
            &&& 1 <= c.capacity <= 100 ==> n.capacity == c.capacity
        },
        r is Ok && !(file is Some && file->Some_0 is Ok) ==> r->Ok_0.capacity == 75
            && r->Ok_0.api_budget == 5000 && r->Ok_0.request_delay_ms == 100,
{
}

/// The environment gives a name only where it gives one that is not blank, and without the blanks
/// around it.
pub proof fn which_name_the_environment_gives(value: Option<String>, r: Option<String>)
    requires
        call_ensures(config::node_id_override, (&value,), r),
    ensures
        r is Some <==> (value matches Some(v) && text::trimmed(v@).len() > 0),
        r is Some ==> r->Some_0@ == text::trimmed(value->Some_0@),
{
}

/// What the command line gives takes the place of what is configured, each value of its own, and the
/// rest stays.
pub proof fn the_command_line_comes_first(c: NodeConfig, o: NodeOverrides, r: NodeConfig)
    requires
        call_ensures(NodeConfig::with_overrides, (c, &o), r),
    ensures
        r.node_id == c.node_id,
        o.capacity is None ==> r.capacity == c.capacity,
        o.capacity matches Some(x) ==> (1 <= x <= 100 ==> r.capacity == x),
        o.api_budget is None ==> r.api_budget == c.api_budget,
        o.api_budget matches Some(x) ==> (x > 0 ==> r.api_budget == x),
        o.request_delay is None ==> r.request_delay_ms == c.request_delay_ms,
        o.request_delay matches Some(x) ==> (x > 0 ==> r.request_delay_ms == x),
        o.agent_command is None ==> r.agent.command == c.agent.command,
        o.agent_command matches Some(x) ==> r.agent.command == x,
        o.agent_timeout is None ==> r.agent.timeout_secs == c.agent.timeout_secs,
        o.agent_timeout matches Some(x) ==> r.agent.timeout_secs == x,
{
}

/// A duration is a number of seconds, minutes, hours or days: so many times sixty, thirty-six hundred
/// or eighty-six thousand four hundred seconds.
pub proof fn how_long_a_duration_is(n: u64, unit: char, value: &str, r: Result<u64, String>)
    requires
        call_ensures(config::parse_duration, (value,), r),
        text::trimmed(value@) == text::decimal(n as nat).push(unit),
    ensures
        unit == 's' ==> r == Ok::<u64, String>(n),
        unit == 'm' && n * 60 <= u64::MAX ==> r == Ok::<u64, String>((n * 60) as u64),
        unit == 'h' && n * 3600 <= u64::MAX ==> r == Ok::<u64, String>((n * 3600) as u64),
        unit == 'd' && n * 86_400 <= u64::MAX ==> r == Ok::<u64, String>((n * 86_400) as u64),
        unit != 's' && unit != 'm' && unit != 'h' && unit != 'd' ==> r is Err,
        unit == 'm' && n * 60 > u64::MAX ==> r is Err,
        unit == 'h' && n * 3600 > u64::MAX ==> r is Err,
        unit == 'd' && n * 86_400 > u64::MAX ==> r is Err,
{
    let t = text::trimmed(value@);
    text::lemma_number_read_back(n as nat, u64::MAX as nat);
    assert(t.drop_last() =~= text::decimal(n as nat));
    assert(t.last() == unit);
    assert(n as nat * 1 == n) by (nonlinear_arith);
}

/// A rule that nothing sets has its standard value.
pub proof fn what_holds_where_nothing_is_set(r: Result<ProtocolConfig, String>)
    requires
        call_ensures(ProtocolConfig::load, (None,), r),
    ensures
        r is Ok,
        r->Ok_0.required_confirmations == 0,
        r->Ok_0.metric_direction == MetricDirection::HigherIsBetter,
        r->Ok_0.auto_approve,
        r->Ok_0.assignment_timeout == 24 * 3600,
        r->Ok_0.review_timeout == 12 * 3600,
        r->Ok_0.min_queue_depth == 5,
        r->Ok_0.max_queue_depth is None,
        r->Ok_0.metric_tolerance is None,
        r->Ok_0.metric_bound is None,
        r->Ok_0.lead_github_login is None,
        r->Ok_0.maintainer_github_login is None,
        r->Ok_0.cli_version is None,
        r->Ok_0.default_branch is None,
{
}

proof fn lemma_names()
    ensures
        "required_confirmations"@.len() == 22,
        "metric_tolerance"@.len() == 16 && "metric_tolerance"@[7] == 't',
        "metric_direction"@.len() == 16 && "metric_direction"@[7] == 'd',
        "metric_bound"@.len() == 12 && "metric_bound"@[0] == 'm',
        "lead_github_login"@.len() == 17,
        "maintainer_github_login"@.len() == 23,
        "auto_approve"@.len() == 12 && "auto_approve"@[0] == 'a',
        "assignment_timeout"@.len() == 18,
        "review_timeout"@.len() == 14 && "review_timeout"@[0] == 'r',
        "min_queue_depth"@.len() == 15 && "min_queue_depth"@[1] == 'i',
        "max_queue_depth"@.len() == 15 && "max_queue_depth"@[1] == 'a',
        "cli_version"@.len() == 11,
        "default_branch"@.len() == 14 && "default_branch"@[0] == 'd',
        "higher_is_better"@ != "lower_is_better"@,
{
    reveal_strlit("required_confirmations");
    reveal_strlit("metric_tolerance");
    reveal_strlit("metric_direction");
    reveal_strlit("metric_bound");
    reveal_strlit("lead_github_login");
    reveal_strlit("maintainer_github_login");
    reveal_strlit("auto_approve");
    reveal_strlit("assignment_timeout");
    reveal_strlit("review_timeout");
    reveal_strlit("min_queue_depth");
    reveal_strlit("max_queue_depth");
    reveal_strlit("cli_version");
    reveal_strlit("default_branch");
    reveal_strlit("higher_is_better");
    reveal_strlit("lower_is_better");
    assert("higher_is_better"@.len() == 16);
    assert("lower_is_better"@.len() == 15);
}

/// Each rule is set by its own name and by no other: a line that sets one leaves all the others, and
/// what it sets is what it says.
pub proof fn each_rule_is_set_by_its_own_name(
    c: ConfigView,
    key: Seq<char>,
    value: Seq<char>,
    d: ConfigView,
)
    requires
        c.set(key, value) == Ok::<ConfigView, Seq<char>>(d),
    ensures
        key != "required_confirmations"@ ==> d.required_confirmations == c.required_confirmations,
        key != "metric_tolerance"@ ==> d.metric_tolerance == c.metric_tolerance,
        key != "metric_direction"@ ==> d.metric_direction == c.metric_direction,
        key != "metric_bound"@ ==> d.metric_bound == c.metric_bound,
        key != "lead_github_login"@ ==> d.lead_github_login == c.lead_github_login,
        key != "maintainer_github_login"@ ==> d.maintainer_github_login
            == c.maintainer_github_login,
        key != "auto_approve"@ ==> d.auto_approve == c.auto_approve,
        key != "assignment_timeout"@ ==> d.assignment_timeout == c.assignment_timeout,
        key != "review_timeout"@ ==> d.review_timeout == c.review_timeout,
        key != "min_queue_depth"@ ==> d.min_queue_depth == c.min_queue_depth,
        key != "max_queue_depth"@ ==> d.max_queue_depth == c.max_queue_depth,
        key != "cli_version"@ ==> d.cli_version == c.cli_version,
        key != "default_branch"@ ==> d.default_branch == c.default_branch,
        key == "required_confirmations"@ ==> forall|n: u64|
            value == #[trigger] text::decimal(n as nat) ==> d.required_confirmations == n,
        key == "metric_tolerance"@ ==> d.metric_tolerance == Some(value),
        key == "metric_direction"@ ==> (value == "higher_is_better"@ || value
            == "lower_is_better"@) && (d.metric_direction == MetricDirection::LowerIsBetter
            <==> value == "lower_is_better"@),
        key == "metric_bound"@ ==> d.metric_bound == Some(value),
        key == "lead_github_login"@ && value != "replace-me"@ ==> d.lead_github_login == Some(
            value,
        ),
        key == "maintainer_github_login"@ && value != "replace-me"@ ==> d.maintainer_github_login
            == Some(value),
        key == "auto_approve"@ && value == "true"@ ==> d.auto_approve,
        key == "auto_approve"@ && value == "false"@ ==> !d.auto_approve,
        key == "min_queue_depth"@ ==> forall|n: usize|
            value == #[trigger] text::decimal(n as nat) ==> d.min_queue_depth == n,
        key == "max_queue_depth"@ ==> forall|n: usize|
            value == #[trigger] text::decimal(n as nat) ==> d.max_queue_depth == Some(n),
        key == "cli_version"@ ==> d.cli_version == Some(value),
        key == "default_branch"@ ==> d.default_branch == Some(value),
{
    lemma_names();
    reveal_strlit("true");
    reveal_strlit("false");
    assert forall|n: u64| value == #[trigger] text::decimal(n as nat) implies text::read_number(
        value,
        u64::MAX as nat,
    ) == Some(n as nat) by {
        text::lemma_number_read_back(n as nat, u64::MAX as nat);
    }
    assert forall|n: usize| value == #[trigger] text::decimal(n as nat) implies text::read_number(
        value,
        usize::MAX as nat,
    ) == Some(n as nat) by {
        text::lemma_number_read_back(n as nat, usize::MAX as nat);
    }
}

/// The program of a project sets its rules line by line, from the standard ones: each line that sets
/// something does, one that does not do is refused, and the others count for nothing.
pub proof fn rules_are_set_line_by_line(contents: &str, r: Result<ProtocolConfig, String>) -> (v:
    Seq<ConfigView>)
    requires
        call_ensures(ProtocolConfig::load, (Some(contents),), r),
        r is Ok,
    ensures
        ({
            let lines = text::lines_of(contents@);
            &&& v.len() == lines.len() + 1
            &&& v[0] == ConfigView::standard()
            &&& forall|i: int|
                0 <= i < lines.len() ==> match config::setting(lines[i]) {
                    Some((key, value)) => v[i].set(key, value) == Ok::<ConfigView, Seq<char>>(
                        #[trigger] v[i + 1],
                    ),
                    None => #[trigger] v[i + 1] == v[i],
                }
            &&& v.last() == r->Ok_0@
        }),
{
    lemma_lines(text::lines_of(contents@))
}

proof fn lemma_lines(lines: Seq<Seq<char>>) -> (v: Seq<ConfigView>)
    requires
        ConfigView::of_lines(lines) is Ok,
    ensures
        v.len() == lines.len() + 1,
        v[0] == ConfigView::standard(),
        forall|i: int|
            0 <= i < lines.len() ==> match config::setting(lines[i]) {
                Some((key, value)) => v[i].set(key, value) == Ok::<ConfigView, Seq<char>>(
                    #[trigger] v[i + 1],
                ),
                None => #[trigger] v[i + 1] == v[i],
            },
        v.last() == ConfigView::of_lines(lines)->Ok_0,
    decreases lines.len(),
{
    if lines.len() == 0 {
        seq![ConfigView::standard()]
    } else {
        let w = lemma_lines(lines.drop_last());
        let v = w.push(ConfigView::of_lines(lines)->Ok_0);
        assert forall|i: int| 0 <= i < lines.len() implies match config::setting(lines[i]) {
            Some((key, value)) => v[i].set(key, value) == Ok::<ConfigView, Seq<char>>(
                #[trigger] v[i + 1],
            ),
            None => #[trigger] v[i + 1] == v[i],
        } by {
            if i < lines.len() - 1 {
                assert(w[i + 1] == v[i + 1]);
                assert(lines.drop_last()[i] == lines[i]);
            }
        }
        v
    }
}

/// Without a bound of its own a metric that is better the lower ends at zero, and one that is better
/// the higher at one.
pub proof fn where_a_metric_ends(c: ProtocolConfig, r: String)
    requires
        call_ensures(ProtocolConfig::resolved_metric_bound, (&c,), r),
    ensures
        c.metric_bound matches Some(b) ==> r@ == b@,
        c.metric_bound is None && c.metric_direction == MetricDirection::LowerIsBetter ==> r@
            == "0"@,
        c.metric_bound is None && c.metric_direction == MetricDirection::HigherIsBetter ==> r@
            == "1"@,
{
}

/// A tool of another version than the project asks for is refused, and no other.
pub proof fn which_version_is_refused(c: ProtocolConfig, current: &str, r: Result<(), String>)
    requires
        call_ensures(ProtocolConfig::check_cli_version, (&c, current), r),
    ensures
        r is Err <==> (c.cli_version matches Some(v) && v@ != current@),
{
}

/// The branch that the project names comes first, then the one that the checkout shows, without the
/// name of the remote; where neither is there it is the usual one.
pub proof fn which_branch_is_the_default(
    c: ProtocolConfig,
    shown: &str,
    name: Seq<char>,
    r: String,
    s: String,
)
    requires
        call_ensures(ProtocolConfig::resolve_default_branch, (&c, Some(shown)), r),
        call_ensures(ProtocolConfig::resolve_default_branch, (&c, None), s),
        text::trimmed(shown@) == "origin/"@ + name,
        name.len() > 0,
    ensures
        c.default_branch matches Some(b) ==> r@ == b@ && s@ == b@,
        c.default_branch is None ==> r@ == name && s@ == "main"@,
{
    let t = text::trimmed(shown@);
    let p = "origin/"@;
    assert(t.take(p.len() as int) =~= p);
    assert(t.skip(p.len() as int) =~= name);
}

/// What may be changed is what stands under its heading, and what may not under its own.
pub proof fn what_a_program_may_change(
    contents: &str,
    r: ProgramSpec,
    can: Vec<String>,
    cannot: Vec<String>,
)
    requires
        call_ensures(ProgramSpec::load, (contents,), r),
        call_ensures(config::parse_markdown_list, (contents, "## What you CAN modify"), can),
        call_ensures(config::parse_markdown_list, (contents, "## What you CANNOT modify"), cannot),
    ensures
        text::texts(r.can_modify@) == text::texts(can@),
        text::texts(r.cannot_modify@) == text::texts(cannot@),
{
}

} // verus!
