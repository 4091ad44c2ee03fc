//! Which tool calls may run: allow-rules, auto mode and the user's answer.

use vstd::prelude::*;

use crate::text::{
    is_blank, is_white, law_stripping_undoes_prefixing, law_white_space_parts_words,
    lemma_blank_trimmed, lemma_words_trimmed, opt_chars, prefix_stripped, same, split_words,
    strip_prefix, texts, trim, trimmed, unless_blank, unless_blank_chars, words,
};

verus! {

/// The tool that runs a shell command.
pub const RUN_COMMAND: &'static str = "run_command";

/// What a rule for a command prefix starts with.
pub const RUN_COMMAND_RULE: &'static str = "run_command:";

/// The characters that let a shell command do more than its leading words
/// say: chaining, substitution, redirection, expansion, escapes, quotes and
/// line feeds.
pub open spec fn is_metacharacter(c: char) -> bool {
    ||| c == ';' || c == '&' || c == '|'
    ||| c == '`' || c == '$' || c == '(' || c == ')'
    ||| c == '<' || c == '>'
    ||| c == '\n'
    ||| c == '"' || c == '\''
    ||| c == '*' || c == '?' || c == '{' || c == '}' || c == '[' || c == ']'
    ||| c == '\\'
}

/// Whether a command holds a shell metacharacter.
pub open spec fn has_metacharacter(command: Seq<char>) -> bool {
    exists|i: int| 0 <= i < command.len() && is_metacharacter(#[trigger] command[i])
}

/// Whether the words of `command` start with the words of `prefix`. No prefix
/// matches a command with a shell metacharacter, and the empty prefix matches none.
pub open spec fn matches_prefix(command: Seq<char>, prefix: Seq<char>) -> bool {
    &&& prefix.len() > 0
    &&& !has_metacharacter(command)
    &&& words(prefix).is_prefix_of(words(command))
}

/// Whether one rule covers a call: it names the tool, or it is
/// `run_command:<prefix>` and the command starts with that prefix.
pub open spec fn rule_covers(rule: Seq<char>, tool: Seq<char>, command: Option<Seq<char>>) -> bool {
    ||| rule == tool
    ||| {
        &&& tool == RUN_COMMAND@
        &&& prefix_stripped(rule, RUN_COMMAND_RULE@) is Some
        &&& command is Some
        &&& matches_prefix(
            command->0,
            trimmed(prefix_stripped(rule, RUN_COMMAND_RULE@)->0),
        )
    }
}

/// Whether a call is a shell command with a metacharacter.
pub open spec fn is_compound(tool: Seq<char>, command: Option<Seq<char>>) -> bool {
    tool == RUN_COMMAND@ && command is Some && has_metacharacter(command->0)
}

/// Whether the rules let a call run without a prompt.
pub open spec fn allowed(
    rules: Seq<Seq<char>>,
    tool: Seq<char>,
    command: Option<Seq<char>>,
) -> bool {
    &&& !is_compound(tool, command)
    &&& exists|i: int| 0 <= i < rules.len() && rule_covers(#[trigger] rules[i], tool, command)
}

/// The characters of an optional string.
pub open spec fn opt_text(s: Option<&str>) -> Option<Seq<char>> {
    match s {
        Some(t) => Some(t@),
        None => None,
    }
}

/// Whether a command holds a shell metacharacter.
pub fn has_shell_metacharacters(command: &str) -> (r: bool)
    ensures
        r == has_metacharacter(command@),
{
    for c in it: command.chars()
        invariant
            it.seq() == command@,
            forall|k: int| 0 <= k < it.index() ==> !is_metacharacter(#[trigger] command@[k]),
    {
        let hit: bool = match c {
            ';' | '&' | '|' | '`' | '$' | '(' | ')' | '<' | '>' | '\n' | '"' | '\'' => true,
            '*' | '?' | '{' | '}' | '[' | ']' | '\\' => true,
            _ => false,
        };
        if hit {
            assert(is_metacharacter(command@[it.index() as int]));
            return true;
        }
    }
    false
}

/// Whether `command` starts with the words of `prefix`: `gh` matches
/// `gh run list` but not `ghx`.
pub fn command_matches_prefix(command: &str, prefix: &str) -> (r: bool)
    ensures
        r == matches_prefix(command@, prefix@),
{
    if prefix.is_empty() || has_shell_metacharacters(command) {
        return false;
    }
    let c: Vec<String> = split_words(command);
    let p: Vec<String> = split_words(prefix);
    let ghost cw = words(command@);
    let ghost pw = words(prefix@);
    if p.len() > c.len() {
        return false;
    }
    let mut i: usize = 0;
    while i < p.len()
        invariant
            0 <= i <= p@.len() <= c@.len(),
            texts(c@) == cw,
            texts(p@) == pw,
            cw == words(command@),
            pw == words(prefix@),
            forall|k: int| 0 <= k < i ==> #[trigger] pw[k] == cw[k],
        decreases p@.len() - i,
    {
        assert(pw[i as int] == p@[i as int]@ && cw[i as int] == c@[i as int]@);
        if !same(p[i].as_str(), c[i].as_str()) {
            assert(cw.subrange(0, pw.len() as int)[i as int] == cw[i as int]);
            return false;
        }
        i = i + 1;
    }
    assert(pw =~= cw.subrange(0, pw.len() as int));
    true
}

/// Whether the rules let a call run without a prompt. A shell command with a
/// metacharacter is never let through by a rule.
pub fn is_allowed(rules: &Vec<String>, tool: &str, command: Option<&str>) -> (r: bool)
    ensures
        r == allowed(texts(rules@), tool@, opt_text(command)),
{
    let shell: bool = same(tool, RUN_COMMAND);
    if shell {
        if let Some(cmd) = command {
            if has_shell_metacharacters(cmd) {
                return false;
            }
        }
    }
    let ghost all = texts(rules@);
    let mut i: usize = 0;
    while i < rules.len()
        invariant
            0 <= i <= rules@.len(),
            all == texts(rules@),
            shell == (tool@ == RUN_COMMAND@),
            !is_compound(tool@, opt_text(command)),
            forall|k: int|
                0 <= k < i ==> !rule_covers(#[trigger] all[k], tool@, opt_text(command)),
        decreases rules@.len() - i,
    {
        let rule: &str = rules[i].as_str();
        assert(all[i as int] == rule@);
        if same(rule, tool) {
            assert(rule_covers(all[i as int], tool@, opt_text(command)));
            return true;
        }
        if shell {
            if let Some(prefix) = strip_prefix(rule, RUN_COMMAND_RULE) {
                if let Some(cmd) = command {
                    if command_matches_prefix(cmd, trim(prefix.as_str()).as_str()) {
                        assert(rule_covers(all[i as int], tool@, opt_text(command)));
                        return true;
                    }
                }
            }
        }
        i = i + 1;
    }
    false
}

/// A rule never lets a shell command with a metacharacter run without a
/// prompt, whatever the rules are.
pub proof fn law_rules_never_run_compound_commands(rules: Seq<Seq<char>>, command: Seq<char>)
    requires
        has_metacharacter(command),
    ensures
        !allowed(rules, RUN_COMMAND@, Some(command)),
{
}

/// Where only prefix rules stand for shell commands, a command that runs
/// without a prompt starts with the words of one of those prefixes.
pub proof fn law_prefix_rules_bound_commands(rules: Seq<Seq<char>>, command: Seq<char>)
    requires
        allowed(rules, RUN_COMMAND@, Some(command)),
        !rules.contains(RUN_COMMAND@),
    ensures
        !has_metacharacter(command),
        exists|i: int|
            0 <= i < rules.len() && prefix_stripped(#[trigger] rules[i], RUN_COMMAND_RULE@) is Some
                && words(
                trimmed(prefix_stripped(rules[i], RUN_COMMAND_RULE@)->0),
            ).is_prefix_of(words(command)),
{
    let i = choose|i: int|
        0 <= i < rules.len() && rule_covers(#[trigger] rules[i], RUN_COMMAND@, Some(command));
    assert(rules[i] != RUN_COMMAND@);
}

/// With no rules nothing runs without a prompt.
pub proof fn law_no_rules_deny(tool: Seq<char>, command: Option<Seq<char>>)
    ensures
        !allowed(Seq::empty(), tool, command),
{
}

/// Lists of rules combine: together they allow what either of them allows.
pub proof fn law_rules_combine(
    a: Seq<Seq<char>>,
    b: Seq<Seq<char>>,
    tool: Seq<char>,
    command: Option<Seq<char>>,
)
    ensures
        allowed(a + b, tool, command) <==> allowed(a, tool, command) || allowed(b, tool, command),
{
    let both = a + b;
    if allowed(both, tool, command) {
        let i = choose|i: int|
            0 <= i < both.len() && rule_covers(#[trigger] both[i], tool, command);
        if i < a.len() {
            assert(a[i] == both[i]);
        } else {
            assert(b[i - a.len()] == both[i]);
        }
    }
    if allowed(a, tool, command) {
        let i = choose|i: int| 0 <= i < a.len() && rule_covers(#[trigger] a[i], tool, command);
        assert(both[i] == a[i]);
    }
    if allowed(b, tool, command) {
        let i = choose|i: int| 0 <= i < b.len() && rule_covers(#[trigger] b[i], tool, command);
        assert(both[a.len() + i] == b[i]);
    }
}

/// More rules allow no less.
pub proof fn law_rules_are_monotone(
    rules: Seq<Seq<char>>,
    rule: Seq<char>,
    tool: Seq<char>,
    command: Option<Seq<char>>,
)
    requires
        allowed(rules, tool, command),
    ensures
        allowed(rules.push(rule), tool, command),
{
    let i = choose|i: int| 0 <= i < rules.len() && rule_covers(#[trigger] rules[i], tool, command);
    assert(rules.push(rule)[i] == rules[i]);
}

/// The user's answer to a pending proposal.
#[derive(Clone, Copy, Debug, PartialEq, Eq, Structural)]
pub enum Decision {
    /// Run this one call.
    AllowOnce,
    /// Run it; a rule that covers it has been stored.
    AllowAlways,
    /// Skip it.
    Deny,
}

/// What an answer of the user asks for: the decision, and the rule to store
/// with it.
pub struct Answer {
    pub decision: Decision,
    pub rule: Option<String>,
}

/// What the three words for an answer stand for.
pub open spec fn decision_named(word: Seq<char>) -> Option<Decision> {
    if word == "allow_once"@ {
        Some(Decision::AllowOnce)
    } else if word == "allow_always"@ {
        Some(Decision::AllowAlways)
    } else if word == "deny"@ {
        Some(Decision::Deny)
    } else {
        None
    }
}

/// Read the answer to a proposal: one of `allow_once`, `allow_always` and
/// `deny`. With `allow_always`, a scope that is not blank is the rule to store.
pub fn read_answer(decision: &str, scope: Option<String>) -> (r: Result<Answer, String>)
    ensures
        match r {
            Ok(v) => {
                &&& decision_named(decision@) == Some(v.decision)
                &&& opt_chars(v.rule) == (if decision@ == "allow_always"@ {
                    unless_blank_chars(opt_chars(scope))
                } else {
                    None
                })
            },
            Err(e) => decision_named(decision@) is None && e@ == "unknown decision: "@ + decision@,
        },
{
    proof {
        reveal_strlit("allow_once");
        reveal_strlit("allow_always");
        reveal_strlit("deny");
        assert("allow_once"@.len() != "allow_always"@.len());
        assert("deny"@.len() != "allow_always"@.len());
    }
    if same(decision, "allow_once") {
        Ok(Answer { decision: Decision::AllowOnce, rule: None })
    } else if same(decision, "allow_always") {
        let rule: Option<String> = unless_blank(scope);
        Ok(Answer { decision: Decision::AllowAlways, rule })
    } else if same(decision, "deny") {
        Ok(Answer { decision: Decision::Deny, rule: None })
    } else {
        Err("unknown decision: ".to_owned().concat(decision))
    }
}

/// Append a rule to the list unless it is there already.
pub fn add_allow_rule(rules: &mut Vec<String>, rule: String)
    ensures
        texts(final(rules)@) == (if texts(old(rules)@).contains(rule@) {
            texts(old(rules)@)
        } else {
            texts(old(rules)@).push(rule@)
        }),
        texts(final(rules)@).contains(rule@),
        old(rules)@.is_prefix_of(final(rules)@),
        final(rules)@.len() <= old(rules)@.len() + 1,
{
    let ghost all = texts(rules@);
    let mut i: usize = 0;
    while i < rules.len()
        invariant
            0 <= i <= rules@.len(),
            *rules == *old(rules),
            all == texts(rules@),
            forall|k: int| 0 <= k < i ==> #[trigger] all[k] != rule@,
        decreases rules@.len() - i,
    {
        assert(all[i as int] == rules@[i as int]@);
        if same(rules[i].as_str(), rule.as_str()) {
            assert(rules@ =~= rules@.take(rules@.len() as int));
            return;
        }
        i = i + 1;
    }
    let ghost text = rule@;
    rules.push(rule);
    assert(texts(rules@) =~= all.push(text));
    assert(all.push(text)[all.len() as int] == text);
    assert(old(rules)@ =~= rules@.take(old(rules)@.len() as int));
}

/// A stored rule is there, the rules that were there stay in their order, and
/// a list without repetition keeps having none.
pub proof fn law_added_rule_is_stored_once(rules: Seq<Seq<char>>, rule: Seq<char>)
    ensures
        ({
            let after = if rules.contains(rule) {
                rules
            } else {
                rules.push(rule)
            };
            &&& after.contains(rule)
            &&& rules.is_prefix_of(after)
            &&& rules.no_duplicates() ==> after.no_duplicates()
        }),
{
    if !rules.contains(rule) {
        let after = rules.push(rule);
        assert(after[rules.len() as int] == rule);
        assert(rules =~= after.subrange(0, rules.len() as int));
        if rules.no_duplicates() {
            assert forall|i: int, j: int|
                0 <= i < after.len() && 0 <= j < after.len() && i != j implies after[i]
                != after[j] by {
                if i < rules.len() && j < rules.len() {
                    assert(rules[i] != rules[j]);
                } else if i < rules.len() {
                    assert(rules.contains(rules[i]));
                } else {
                    assert(rules.contains(rules[j]));
                }
            }
        }
    } else {
        assert(rules =~= rules.subrange(0, rules.len() as int));
    }
}

/// What can happen while a proposal waits for its answer.
pub enum WaitEvent {
    /// The run was stopped.
    Stopped,
    /// An answer arrived, to the proposal with the given id.
    Decided { call_id: String, decision: Decision },
    /// Nothing arrived in time.
    Timeout,
    /// No answer can arrive any more.
    Disconnected,
}

/// What a waiting proposal does next.
#[derive(Clone, Copy, Debug, PartialEq, Eq, Structural)]
pub enum WaitOutcome {
    /// Run the call.
    Run,
    /// Do not run it.
    Refuse,
    /// Go on waiting.
    Wait,
}

/// What an event means for the proposal `call_id`.
pub open spec fn outcome_of(event: WaitEvent, call_id: Seq<char>) -> WaitOutcome {
    match event {
        WaitEvent::Stopped => WaitOutcome::Refuse,
        WaitEvent::Decided { call_id: id, decision } => if id@ != call_id {
            WaitOutcome::Wait
        } else if decision == Decision::Deny {
            WaitOutcome::Refuse
        } else {
            WaitOutcome::Run
        },
        WaitEvent::Timeout => WaitOutcome::Wait,
        WaitEvent::Disconnected => WaitOutcome::Refuse,
    }
}

/// One step of waiting for the answer to the proposal `call_id`. An answer
/// to another proposal is stale and decides nothing.
pub fn wait_step(event: &WaitEvent, call_id: &str) -> (r: WaitOutcome)
    ensures
        r == outcome_of(*event, call_id@),
{
    match event {
        WaitEvent::Stopped => WaitOutcome::Refuse,
        WaitEvent::Decided { call_id: id, decision } => {
            if !same(id.as_str(), call_id) {
                WaitOutcome::Wait
            } else {
                match decision {
                    Decision::Deny => WaitOutcome::Refuse,
                    _ => WaitOutcome::Run,
                }
            }
        },
        WaitEvent::Timeout => WaitOutcome::Wait,
        WaitEvent::Disconnected => WaitOutcome::Refuse,
    }
}

/// Where a row of events leaves the proposal `call_id`: the first one that
/// decides, decides.
pub open spec fn outcome_after(events: Seq<WaitEvent>, call_id: Seq<char>) -> WaitOutcome
    decreases events.len(),
{
    if events.len() == 0 {
        WaitOutcome::Wait
    } else if outcome_of(events[0], call_id) != WaitOutcome::Wait {
        outcome_of(events[0], call_id)
    } else {
        outcome_after(events.drop_first(), call_id)
    }
}

/// A waiting call runs only on an answer that allows this very call, and that
/// nothing refused before.
pub proof fn law_only_own_answer_runs_a_call(events: Seq<WaitEvent>, call_id: Seq<char>)
    requires
        outcome_after(events, call_id) == WaitOutcome::Run,
    ensures
        exists|i: int|
            0 <= i < events.len() && (#[trigger] events[i] matches WaitEvent::Decided {
                call_id: id,
                decision,
            } && id@ == call_id && decision != Decision::Deny) && forall|k: int|
                0 <= k < i ==> outcome_of(#[trigger] events[k], call_id) == WaitOutcome::Wait,
    decreases events.len(),
{
    if outcome_of(events[0], call_id) != WaitOutcome::Wait {
        assert(events[0] matches WaitEvent::Decided { call_id: id, decision } && id@ == call_id
            && decision != Decision::Deny);
    } else {
        let rest = events.drop_first();
        law_only_own_answer_runs_a_call(rest, call_id);
        let i = choose|i: int|
            0 <= i < rest.len() && (#[trigger] rest[i] matches WaitEvent::Decided {
                call_id: id,
                decision,
            } && id@ == call_id && decision != Decision::Deny) && forall|k: int|
                0 <= k < i ==> outcome_of(#[trigger] rest[k], call_id) == WaitOutcome::Wait;
        assert(events[i + 1] == rest[i]);
        assert forall|k: int| 0 <= k < i + 1 implies outcome_of(#[trigger] events[k], call_id)
            == WaitOutcome::Wait by {
            if k > 0 {
                assert(rest[k - 1] == events[k]);
            }
        }
    }
}

/// Answers to other calls, and time passing, decide nothing.
pub proof fn law_stale_answers_decide_nothing(events: Seq<WaitEvent>, call_id: Seq<char>)
    requires
        forall|i: int|
            0 <= i < events.len() ==> match #[trigger] events[i] {
                WaitEvent::Decided { call_id: id, .. } => id@ != call_id,
                WaitEvent::Timeout => true,
                _ => false,
            },
    ensures
        outcome_after(events, call_id) == WaitOutcome::Wait,
    decreases events.len(),
{
    if events.len() > 0 {
        assert(outcome_of(events[0], call_id) == WaitOutcome::Wait);
        let rest = events.drop_first();
        assert forall|i: int| 0 <= i < rest.len() implies match #[trigger] rest[i] {
            WaitEvent::Decided { call_id: id, .. } => id@ != call_id,
            WaitEvent::Timeout => true,
            _ => false,
        } by {
            assert(rest[i] == events[i + 1]);
        }
        law_stale_answers_decide_nothing(rest, call_id);
    }
}

/// Whether a call runs, given the events while it waits for the user: in auto
/// mode, or because a rule lets it, or because the user does.
pub open spec fn runs(
    auto: bool,
    rules: Seq<Seq<char>>,
    tool: Seq<char>,
    command: Option<Seq<char>>,
    call_id: Seq<char>,
    events: Seq<WaitEvent>,
) -> bool {
    auto || allowed(rules, tool, command) || outcome_after(events, call_id) == WaitOutcome::Run
}

/// Nothing runs unless it was allowed: outside of auto mode, a call that no
/// rule lets through runs only if the user has allowed this very call.
pub proof fn law_nothing_runs_unasked(
    rules: Seq<Seq<char>>,
    tool: Seq<char>,
    command: Option<Seq<char>>,
    call_id: Seq<char>,
    events: Seq<WaitEvent>,
)
    requires
        runs(false, rules, tool, command, call_id, events),
        !allowed(rules, tool, command),
    ensures
        exists|i: int|
            0 <= i < events.len() && (#[trigger] events[i] matches WaitEvent::Decided {
                call_id: id,
                decision,
            } && id@ == call_id && decision != Decision::Deny),
{
    law_only_own_answer_runs_a_call(events, call_id);
}

/// Outside of auto mode a shell command with a metacharacter runs only if the
/// user has allowed this very call, whatever the rules are.
pub proof fn law_compound_commands_need_the_user(
    rules: Seq<Seq<char>>,
    command: Seq<char>,
    call_id: Seq<char>,
    events: Seq<WaitEvent>,
)
    requires
        runs(false, rules, RUN_COMMAND@, Some(command), call_id, events),
        has_metacharacter(command),
    ensures
        exists|i: int|
            0 <= i < events.len() && (#[trigger] events[i] matches WaitEvent::Decided {
                call_id: id,
                decision,
            } && id@ == call_id && decision != Decision::Deny),
{
    law_rules_never_run_compound_commands(rules, command);
    law_nothing_runs_unasked(rules, RUN_COMMAND@, Some(command), call_id, events);
}

/// The characters that a command may not hold, all of them.
pub proof fn law_metacharacters(command: Seq<char>)
    ensures
        has_metacharacter(command) <==> exists|i: int|
            0 <= i < command.len() && ";&|`$()<>\n\"'*?{}[]\\"@.contains(#[trigger] command[i]),
{
    let all = ";&|`$()<>\n\"'*?{}[]\\"@;
    reveal_strlit(";&|`$()<>\n\"'*?{}[]\\");
    if has_metacharacter(command) {
        let i = choose|i: int| 0 <= i < command.len() && is_metacharacter(#[trigger] command[i]);
        assert(all[0] == ';' && all[1] == '&' && all[2] == '|' && all[3] == '`');
        assert(all[4] == '$' && all[5] == '(' && all[6] == ')' && all[7] == '<');
        assert(all[8] == '>' && all[9] == '\n' && all[10] == '"' && all[11] == '\'');
        assert(all[12] == '*' && all[13] == '?' && all[14] == '{' && all[15] == '}');
        assert(all[16] == '[' && all[17] == ']' && all[18] == '\\');
        assert(all.contains(command[i]));
    }
}

/// A rule for a prefix lets every command run that starts with the words of the
/// prefix, however many words follow, unless the command holds a metacharacter.
pub proof fn law_a_prefix_rule_covers_its_commands(
    rules: Seq<Seq<char>>,
    prefix: Seq<char>,
    command: Seq<char>,
)
    requires
        rules.contains("run_command:"@ + prefix),
        !is_blank(prefix),
        !has_metacharacter(command),
        words(prefix).is_prefix_of(words(command)),
    ensures
        allowed(rules, "run_command"@, Some(command)),
{
    let rule = "run_command:"@ + prefix;
    let i = choose|i: int| 0 <= i < rules.len() && rules[i] == rule;
    law_stripping_undoes_prefixing("run_command:"@, prefix, rule);
    lemma_blank_trimmed(prefix);
    lemma_words_trimmed(prefix);
    assert(rule_covers(rules[i], "run_command"@, Some(command)));
}

/// A rule for a prefix lets the prefix itself run, and the prefix with white
/// space and anything behind it, unless a metacharacter is there.
pub proof fn law_a_prefix_may_be_continued(
    rules: Seq<Seq<char>>,
    prefix: Seq<char>,
    white: char,
    rest: Seq<char>,
)
    requires
        rules.contains("run_command:"@ + prefix),
        !is_blank(prefix),
        is_white(white),
    ensures
        !has_metacharacter(prefix) ==> allowed(rules, "run_command"@, Some(prefix)),
        !has_metacharacter(prefix + seq![white] + rest) ==> allowed(
            rules,
            "run_command"@,
            Some(prefix + seq![white] + rest),
        ),
{
    let command = prefix + seq![white] + rest;
    law_white_space_parts_words(prefix, white, rest);
    assert(words(prefix) =~= words(prefix).take(words(prefix).len() as int));
    assert(words(prefix) =~= words(command).take(words(prefix).len() as int));
    if !has_metacharacter(prefix) {
        law_a_prefix_rule_covers_its_commands(rules, prefix, prefix);
    }
    if !has_metacharacter(command) {
        law_a_prefix_rule_covers_its_commands(rules, prefix, command);
    }
}

/// A command that runs without a prompt has a rule to thank: one that names the
/// tool, or one for a prefix that is not blank and whose words it starts with.
pub proof fn law_a_command_runs_by_a_rule(rules: Seq<Seq<char>>, command: Seq<char>)
    requires
        allowed(rules, "run_command"@, Some(command)),
    ensures
        rules.contains("run_command"@) || exists|prefix: Seq<char>|
            {
                &&& rules.contains(#[trigger] ("run_command:"@ + prefix))
                &&& !is_blank(prefix)
                &&& words(prefix).is_prefix_of(words(command))
            },
{
    let i = choose|i: int|
        0 <= i < rules.len() && rule_covers(#[trigger] rules[i], "run_command"@, Some(command));
    if rules[i] != "run_command"@ {
        let prefix = prefix_stripped(rules[i], "run_command:"@)->0;
        law_stripping_undoes_prefixing("run_command:"@, prefix, rules[i]);
        lemma_blank_trimmed(prefix);
        lemma_words_trimmed(prefix);
        assert(rules.contains("run_command:"@ + prefix));
    }
}

/// A rule that names a tool lets the tool run, but for commands with a
/// metacharacter; for another tool than the shell nothing else does, nor for
/// the shell without a command.
pub proof fn law_a_tool_runs_by_its_name(
    rules: Seq<Seq<char>>,
    tool: Seq<char>,
    command: Option<Seq<char>>,
)
    ensures
        tool != "run_command"@ || command is None ==> (allowed(rules, tool, command)
            <==> rules.contains(tool)),
        command is Some && !has_metacharacter(command->0) && rules.contains(tool) ==> allowed(
            rules,
            tool,
            command,
        ),
{
    if rules.contains(tool) {
        let i = choose|i: int| 0 <= i < rules.len() && rules[i] == tool;
        assert(rule_covers(rules[i], tool, command));
    }
}

/// A prefix matches by words: it must not be empty, nor the command hold a
/// metacharacter, and then the command's words have to start with its words.
pub proof fn law_a_prefix_matches_by_words(command: Seq<char>, prefix: Seq<char>)
    ensures
        matches_prefix(command, Seq::empty()) == false,
        has_metacharacter(command) ==> !matches_prefix(command, prefix),
        matches_prefix(command, prefix) ==> words(prefix).is_prefix_of(words(command)),
        prefix.len() > 0 && !has_metacharacter(command) && words(prefix).is_prefix_of(
            words(command),
        ) ==> matches_prefix(command, prefix),
{
}

/// Three words answer a proposal, each in its own way, and no other word does.
pub proof fn law_three_words_answer(word: Seq<char>)
    ensures
        decision_named(word) == Some(Decision::AllowOnce) <==> word == "allow_once"@,
        decision_named(word) == Some(Decision::AllowAlways) <==> word == "allow_always"@,
        decision_named(word) == Some(Decision::Deny) <==> word == "deny"@,
        decision_named(word) is None <==> word != "allow_once"@ && word != "allow_always"@ && word
            != "deny"@,
{
    reveal_strlit("allow_once");
    reveal_strlit("allow_always");
    reveal_strlit("deny");
    assert("allow_once"@.len() != "allow_always"@.len());
    assert("deny"@.len() != "allow_always"@.len());
    assert("deny"@.len() != "allow_once"@.len());
}

/// The first event that concerns the call decides, whatever comes later: an
/// answer to it by what it says, and the end of the run or of the conversation
/// against it.
pub proof fn law_the_first_decision_stands(
    before: Seq<WaitEvent>,
    event: WaitEvent,
    after: Seq<WaitEvent>,
    call_id: Seq<char>,
)
    requires
        forall|i: int|
            0 <= i < before.len() ==> match #[trigger] before[i] {
                WaitEvent::Decided { call_id: id, .. } => id@ != call_id,
                WaitEvent::Timeout => true,
                _ => false,
            },
    ensures
        event is Stopped || event is Disconnected ==> outcome_after(
            before.push(event) + after,
            call_id,
        ) == WaitOutcome::Refuse,
        event matches WaitEvent::Decided { call_id: id, decision } ==> id@ == call_id ==> {
            &&& decision == Decision::Deny ==> outcome_after(before.push(event) + after, call_id)
                == WaitOutcome::Refuse
            &&& decision == Decision::AllowOnce || decision == Decision::AllowAlways
                ==> outcome_after(before.push(event) + after, call_id) == WaitOutcome::Run
        },
    decreases before.len(),
{
    let events = before.push(event) + after;
    if before.len() == 0 {
        assert(events[0] == event);
    } else {
        let rest = before.drop_first();
        assert(events[0] == before[0]);
        assert(outcome_of(events[0], call_id) == WaitOutcome::Wait);
        assert forall|i: int| 0 <= i < rest.len() implies match #[trigger] rest[i] {
            WaitEvent::Decided { call_id: id, .. } => id@ != call_id,
            WaitEvent::Timeout => true,
            _ => false,
        } by {
            assert(rest[i] == before[i + 1]);
        }
        law_the_first_decision_stands(rest, event, after, call_id);
        assert(events.drop_first() =~= rest.push(event) + after);
    }
}

} // verus!
