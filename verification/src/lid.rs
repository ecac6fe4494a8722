//! Lid-switch and clamshell handling: which output profile is switched to when
//! the lid opens or closes, or outputs come and go. Times are in milliseconds.
use vstd::prelude::*;
use vstd::string::*;

use crate::config::Lid;
use crate::text;

verus! {

/// Time between two looks at the lid.
pub const POLL_INTERVAL: u64 = 500;

/// Time that the internal panel is given to reconnect after the lid opened.
pub const OPEN_DEBOUNCE: u64 = 1_500;

/// Time until the switch after opening is repeated, for the case that the panel
/// was not ready.
pub const OPEN_RETRY_DELAY: u64 = 2_000;

/// Time between recoveries while the internal panel is the only output.
pub const UNDOCKED_RECOVERY_INTERVAL: u64 = 30_000;

/// Time until the first retry after the outputs changed.
pub const FIRST_RETRY_DELAY: u64 = 2_000;

/// Time until the second retry after the outputs changed.
pub const SECOND_RETRY_DELAY: u64 = 5_000;

/// Which display outputs are connected.
#[derive(Debug, Clone, Copy, PartialEq, Eq, Structural)]
pub struct DisplayTopology {
    /// Whether the internal panel is connected.
    pub internal_connected: bool,
    /// Whether any external output is connected.
    pub external_connected: bool,
}

/// Whether the internal panel is the only output connected.
pub open spec fn undocked(topology: DisplayTopology) -> bool {
    topology.internal_connected && !topology.external_connected
}

/// The output name of a DRM connector: what stands behind the first hyphen.
pub open spec fn connector_output(card: Seq<char>) -> Option<Seq<char>> {
    if text::position_of(card, '-') < card.len() {
        Some(card.skip(text::position_of(card, '-') + 1))
    } else {
        None
    }
}

/// The output name of a DRM connector.
pub fn drm_output_name(card_name: &str) -> (r: Option<&str>)
    ensures
        r is Some <==> connector_output(card_name@) is Some,
        r is Some ==> r->0@ == connector_output(card_name@)->0,
{
    match text::split_once(card_name, '-') {
        Some((_, output)) => Some(output),
        None => None,
    }
}

/// Whether the text of a connector's status file, if it could be read, says
/// that the connector is connected.
pub open spec fn says_connected(status: Option<String>) -> bool {
    match status {
        Some(s) => text::trimmed(s@) == "connected"@,
        None => false,
    }
}

/// Whether a connector is connected, by the text of its status file.
pub fn connector_is_connected(status: &Option<String>) -> (r: bool)
    ensures
        r == says_connected(*status),
{
    match status {
        Some(s) => text::same(text::trim(s.as_str()), "connected"),
        None => false,
    }
}

/// Whether a connector, given by its name and status, is that of a connected
/// output which is the internal panel, or is not.
pub open spec fn connects(
    entry: (String, Option<String>),
    internal_output: Seq<char>,
    internal: bool,
) -> bool {
    &&& connector_output(entry.0@) is Some
    &&& says_connected(entry.1)
    &&& (connector_output(entry.0@) == Some(internal_output)) == internal
}

/// Whether any of the connectors is connected to the internal panel, or to
/// another output.
pub open spec fn any_connects(
    entries: Seq<(String, Option<String>)>,
    internal_output: Seq<char>,
    internal: bool,
) -> bool {
    exists|i: int| 0 <= i < entries.len() && connects(#[trigger] entries[i], internal_output, internal)
}

/// Which outputs are connected, given the names and statuses of the connectors.
pub fn display_topology(entries: &Vec<(String, Option<String>)>, internal_output: &str) -> (r:
    DisplayTopology)
    ensures
        r == (DisplayTopology {
            internal_connected: any_connects(entries@, internal_output@, true),
            external_connected: any_connects(entries@, internal_output@, false),
        }),
{
    let mut topology = DisplayTopology { internal_connected: false, external_connected: false };
    let mut i: usize = 0;
    assert(entries@.take(0) =~= Seq::empty());
    while i < entries.len()
        invariant
            i <= entries@.len(),
            topology.internal_connected == any_connects(
                entries@.take(i as int),
                internal_output@,
                true,
            ),
            topology.external_connected == any_connects(
                entries@.take(i as int),
                internal_output@,
                false,
            ),
        decreases entries@.len() - i,
    {
        let ghost before = entries@.take(i as int);
        let ghost after = entries@.take(i + 1);
        assert(after[i as int] == entries@[i as int]);
        assert forall|which: bool|
            any_connects(after, internal_output@, which) == (any_connects(
                before,
                internal_output@,
                which,
            ) || connects(entries@[i as int], internal_output@, which)) by {
            if any_connects(before, internal_output@, which) {
                let k = choose|k: int|
                    0 <= k < before.len() && connects(
                        #[trigger] before[k],
                        internal_output@,
                        which,
                    );
                assert(after[k] == before[k]);
            }
            if any_connects(after, internal_output@, which) {
                let k = choose|k: int|
                    0 <= k < after.len() && connects(#[trigger] after[k], internal_output@, which);
                if k < i {
                    assert(before[k] == after[k]);
                }
            }
        }
        if let Some(output) = drm_output_name(entries[i].0.as_str()) {
            if connector_is_connected(&entries[i].1) {
                if text::same(output, internal_output) {
                    topology.internal_connected = true;
                } else {
                    topology.external_connected = true;
                }
            }
        }
        i += 1;
    }
    assert(entries@.take(i as int) =~= entries@);
    topology
}

/// What the text of a lid state file says: whether the lid is closed, if
/// anything.
pub open spec fn lid_state(s: Seq<char>) -> Option<bool> {
    if text::occurs(text::lowered(s), "closed"@) {
        Some(true)
    } else if text::occurs(text::lowered(s), "open"@) {
        Some(false)
    } else {
        None
    }
}

/// Whether the lid is closed, by the first of the state files that says
/// anything; open if none does.
pub open spec fn closed_by(files: Seq<Option<String>>) -> bool
    decreases files.len(),
{
    if files.len() == 0 {
        false
    } else {
        match files[0] {
            Some(s) => match lid_state(s@) {
                Some(closed) => closed,
                None => closed_by(files.skip(1)),
            },
            None => closed_by(files.skip(1)),
        }
    }
}

/// Whether the lid is closed, given the texts of the lid state files that could
/// be read.
pub fn lid_is_closed(files: &Vec<Option<String>>) -> (r: bool)
    ensures
        r == closed_by(files@),
{
    let mut i: usize = 0;
    assert(files@.skip(0) =~= files@);
    while i < files.len()
        invariant
            i <= files@.len(),
            closed_by(files@) == closed_by(files@.skip(i as int)),
        decreases files@.len() - i,
    {
        let ghost rest = files@.skip(i as int);
        assert(rest[0] == files@[i as int]);
        assert(rest.skip(1) =~= files@.skip(i + 1));
        if let Some(s) = &files[i] {
            if text::lower_contains(s.as_str(), "closed") {
                return true;
            }
            if text::lower_contains(s.as_str(), "open") {
                return false;
            }
        }
        i += 1;
    }
    false
}

/// Those of the strings, trimmed, that are not empty.
pub open spec fn present(list: Seq<Seq<char>>) -> Seq<Seq<char>>
    decreases list.len(),
{
    if list.len() == 0 {
        Seq::empty()
    } else {
        let before = present(list.drop_last());
        let last = text::trimmed(list.last());
        if last.len() > 0 {
            before.push(last)
        } else {
            before
        }
    }
}

/// The candidates in a comma-separated list of profiles.
pub open spec fn candidates(profile: Seq<char>) -> Seq<Seq<char>> {
    present(text::pieces(profile, ',', ','))
}

/// The candidates in a comma-separated list of profiles.
pub fn profile_candidates<'a>(profile: &'a str) -> (r: Vec<&'a str>)
    ensures
        r@.len() == candidates(profile@).len(),
        forall|i: int| 0 <= i < r@.len() ==> (#[trigger] r@[i])@ == candidates(profile@)[i],
{
    let parts: Vec<&'a str> = text::split(profile, ',', ',');
    let ghost all = text::pieces(profile@, ',', ',');
    let mut out: Vec<&'a str> = Vec::new();
    let mut i: usize = 0;
    assert(all.take(0) =~= Seq::empty());
    while i < parts.len()
        invariant
            i <= parts@.len() == all.len(),
            forall|k: int| 0 <= k < parts@.len() ==> (#[trigger] parts@[k])@ == all[k],
            out@.len() == present(all.take(i as int)).len(),
            forall|k: int|
                0 <= k < out@.len() ==> (#[trigger] out@[k])@ == present(all.take(i as int))[k],
        decreases parts@.len() - i,
    {
        assert(all.take(i + 1).drop_last() =~= all.take(i as int));
        assert(all.take(i + 1).last() == parts@[i as int]@);
        let candidate: &'a str = text::trim(parts[i]);
        if !candidate.is_empty() {
            out.push(candidate);
        }
        i += 1;
    }
    assert(all.take(i as int) =~= all);
    out
}

/// Whether the lid can stay closed on an external output.
pub fn clamshell_available(topology: DisplayTopology) -> (r: bool)
    ensures
        r == topology.external_connected,
{
    topology.external_connected
}

/// Whether the internal panel should be recovered: with the lid open and only
/// the internal panel connected, when anything makes it due.
pub fn should_recover_undocked(
    closed: bool,
    topology: DisplayTopology,
    topology_changed: bool,
    retry_due: bool,
    recovery_due: bool,
) -> (r: bool)
    ensures
        r == (!closed && undocked(topology) && (topology_changed || retry_due || recovery_due)),
{
    !closed && topology.internal_connected && !topology.external_connected && (topology_changed
        || retry_due || recovery_due)
}

/// What the outputs are switched to.
#[derive(Debug, Clone, Copy, PartialEq, Eq, Structural)]
pub enum Switch {
    /// The internal panel alone, which is switched on first.
    Undocked,
    /// The profile for an open lid.
    Open,
    /// The profile for a closed lid.
    Close,
}

/// What to switch to with the lid open.
pub open spec fn open_switch(topology: DisplayTopology) -> Switch {
    if undocked(topology) {
        Switch::Undocked
    } else {
        Switch::Open
    }
}

/// What to switch to with the lid closed: the internal panel stays on unless
/// there is an external output.
pub open spec fn closed_switch(topology: DisplayTopology) -> Switch {
    if topology.external_connected {
        Switch::Close
    } else {
        Switch::Undocked
    }
}

/// What to switch to for a lid state and the outputs connected.
pub open spec fn current_switch(closed: bool, topology: DisplayTopology) -> Switch {
    if closed {
        closed_switch(topology)
    } else {
        open_switch(topology)
    }
}

/// What to switch to with the lid open.
pub fn recover_open_outputs(topology: DisplayTopology) -> (r: Switch)
    ensures
        r == open_switch(topology),
{
    if topology.internal_connected && !topology.external_connected {
        Switch::Undocked
    } else {
        Switch::Open
    }
}

/// What to switch to with the lid closed.
pub fn apply_closed_profile(topology: DisplayTopology) -> (r: Switch)
    ensures
        r == closed_switch(topology),
{
    if clamshell_available(topology) {
        Switch::Close
    } else {
        Switch::Undocked
    }
}

/// What to switch to for a lid state and the outputs connected.
pub fn apply_current_profile(closed: bool, topology: DisplayTopology) -> (r: Switch)
    ensures
        r == current_switch(closed, topology),
{
    if closed {
        apply_closed_profile(topology)
    } else {
        recover_open_outputs(topology)
    }
}

/// The commands that carry out a switch.
pub struct Commands {
    /// A command to run first, whether or not it succeeds.
    pub first: Option<Vec<String>>,
    /// Commands to try in order until one succeeds.
    pub tries: Vec<Vec<String>>,
}

/// The profiles that a switch goes to.
pub open spec fn switch_profile(config: Lid, switch: Switch) -> Seq<char> {
    match switch {
        Switch::Undocked => config.undocked_profile@,
        Switch::Open => config.open_profile@,
        Switch::Close => config.close_profile@,
    }
}

/// The command that switches the internal panel on.
pub open spec fn panel_command(output: Seq<char>) -> Seq<Seq<char>> {
    seq!["wlr-randr"@, "--output"@, output, "--on"@, "--preferred"@]
}

/// The command that switches to a profile.
pub open spec fn profile_command(profile: Seq<char>) -> Seq<Seq<char>> {
    seq!["kanshictl"@, "switch"@, profile]
}

/// The commands that carry out a switch: for the internal panel alone it is
/// switched on first; then each candidate profile is tried.
pub fn switch_commands(config: &Lid, switch: Switch) -> (r: Commands)
    ensures
        match r.first {
            Some(argv) => switch is Undocked && text::views(argv@) == panel_command(
                config.internal_output@,
            ),
            None => !(switch is Undocked),
        },
        r.tries@.len() == candidates(switch_profile(*config, switch)).len(),
        forall|i: int|
            0 <= i < r.tries@.len() ==> text::views((#[trigger] r.tries@[i])@) == profile_command(
                candidates(switch_profile(*config, switch))[i],
            ),
{
    let profile: &str = match switch {
        Switch::Undocked => config.undocked_profile.as_str(),
        Switch::Open => config.open_profile.as_str(),
        Switch::Close => config.close_profile.as_str(),
    };
    let first: Option<Vec<String>> = match switch {
        Switch::Undocked => {
            let mut argv: Vec<String> = Vec::new();
            argv.push(String::from_str("wlr-randr"));
            argv.push(String::from_str("--output"));
            argv.push(config.internal_output.clone());
            argv.push(String::from_str("--on"));
            argv.push(String::from_str("--preferred"));
            assert(text::views(argv@) =~= panel_command(config.internal_output@));
            Some(argv)
        },
        _ => None,
    };
    let names: Vec<&str> = profile_candidates(profile);
    let ghost wanted = candidates(profile@);
    let mut tries: Vec<Vec<String>> = Vec::new();
    let mut i: usize = 0;
    while i < names.len()
        invariant
            i <= names@.len() == wanted.len(),
            forall|k: int| 0 <= k < names@.len() ==> (#[trigger] names@[k])@ == wanted[k],
            tries@.len() == i,
            forall|k: int|
                0 <= k < i ==> text::views((#[trigger] tries@[k])@) == profile_command(wanted[k]),
        decreases names@.len() - i,
    {
        let mut argv: Vec<String> = Vec::new();
        argv.push(String::from_str("kanshictl"));
        argv.push(String::from_str("switch"));
        argv.push(String::from_str(names[i]));
        assert(text::views(argv@) =~= profile_command(wanted[i as int]));
        tries.push(argv);
        i += 1;
    }
    Commands { first, tries }
}

/// Which of `n` commands to try after `tried` of them, of which the last
/// succeeded or not.
pub open spec fn tried_next(n: int, tried: int, succeeded: bool) -> Option<int> {
    if succeeded || tried >= n {
        None
    } else {
        Some(tried)
    }
}

/// Which of the commands to try after `tried` of them, of which the last
/// succeeded or not: none once one succeeded, or all were tried.
pub fn next_try(commands: &Commands, tried: usize, succeeded: bool) -> (r: Option<usize>)
    ensures
        match tried_next(commands.tries@.len() as int, tried as int, succeeded) {
            Some(i) => r == Some(tried) && i == tried < commands.tries@.len(),
            None => r is None,
        },
{
    if succeeded || tried >= commands.tries.len() {
        None
    } else {
        Some(tried)
    }
}

/// The commands that are tried, one after another, where `outcomes` says which
/// of them succeed.
pub open spec fn tries_made(outcomes: Seq<bool>, tried: int, succeeded: bool) -> Seq<int>
    decreases outcomes.len() - tried,
{
    match tried_next(outcomes.len() as int, tried, succeeded) {
        Some(i) => seq![i] + tries_made(outcomes, i + 1, outcomes[i]),
        None => Seq::empty(),
    }
}

/// Commands are tried in order, up to the first that succeeds, or all of them
/// where none does.
pub proof fn tries_end_at_the_first_success(outcomes: Seq<bool>, last: int)
    requires
        0 <= last < outcomes.len(),
        forall|i: int| 0 <= i < last ==> !(#[trigger] outcomes[i]),
        outcomes[last] || last == outcomes.len() - 1,
    ensures
        tries_made(outcomes, 0, false) == Seq::new((last + 1) as nat, |i: int| i),
{
    lemma_tries(outcomes, 0, last);
    assert(tries_made(outcomes, 0, false) =~= Seq::new((last + 1) as nat, |i: int| i));
}

/// The commands that are tried from `from` on.
proof fn lemma_tries(outcomes: Seq<bool>, from: int, last: int)
    requires
        0 <= from <= last < outcomes.len(),
        forall|i: int| 0 <= i < last ==> !(#[trigger] outcomes[i]),
        outcomes[last] || last == outcomes.len() - 1,
    ensures
        tries_made(outcomes, from, false) == Seq::new((last + 1 - from) as nat, |i: int| from + i),
    decreases last - from,
{
    if from < last {
        lemma_tries(outcomes, from + 1, last);
    } else {
        assert(tries_made(outcomes, last + 1, outcomes[last]) =~= Seq::empty());
    }
    assert(tries_made(outcomes, from, false) =~= Seq::new(
        (last + 1 - from) as nat,
        |i: int| from + i,
    ));
}

/// The output of a connector is named behind the first hyphen; a name without a
/// hyphen is that of no output.
pub proof fn outputs_are_named_behind_the_first_hyphen(card: Seq<char>, output: Seq<char>)
    requires
        !card.contains('-'),
    ensures
        connector_output(card.push('-') + output) == Some(output),
        connector_output(card) is None,
{
    let name = card.push('-') + output;
    text::positions_are_of_the_first_occurrence(name, '-');
    text::positions_are_of_the_first_occurrence(card, '-');
    let at = text::position_of(name, '-');
    let n = card.len() as int;
    assert(name[n] == '-');
    if at < n {
        assert(card[at] == name[at]);
    }
    assert(at == n);
    assert(name.skip(n + 1) =~= output);
}

/// A connector whose status, trimmed, is `connected` connects the internal
/// panel if it is named after it, and an external output otherwise.
pub proof fn connected_outputs_are_counted(
    entries: Seq<(String, Option<String>)>,
    i: int,
    card: Seq<char>,
    output: Seq<char>,
    internal_output: Seq<char>,
)
    requires
        0 <= i < entries.len(),
        !card.contains('-'),
        entries[i].0@ == card.push('-') + output,
        entries[i].1 matches Some(status) && text::trimmed(status@) == "connected"@,
    ensures
        any_connects(entries, internal_output, output == internal_output),
{
    outputs_are_named_behind_the_first_hyphen(card, output);
    assert(connects(entries[i], internal_output, output == internal_output));
}

/// The internal panel, or an external output, counts as connected only where
/// some connector of that name has the status `connected`.
pub proof fn only_connected_outputs_are_counted(
    entries: Seq<(String, Option<String>)>,
    internal_output: Seq<char>,
    internal: bool,
)
    requires
        any_connects(entries, internal_output, internal),
    ensures
        exists|i: int, card: Seq<char>, output: Seq<char>|
            {
                &&& 0 <= i < entries.len()
                &&& #[trigger] entries[i].0@ == #[trigger] (card.push('-') + output)
                &&& (output == internal_output) == internal
                &&& entries[i].1 matches Some(status) && text::trimmed(status@) == "connected"@
            },
{
    let i = choose|i: int|
        0 <= i < entries.len() && connects(#[trigger] entries[i], internal_output, internal);
    let name = entries[i].0@;
    text::positions_are_of_the_first_occurrence(name, '-');
    let at = text::position_of(name, '-');
    let card = name.take(at);
    let output = name.skip(at + 1);
    assert(name =~= card.push('-') + output);
}

/// The first lid state file that holds either word, in small letters or
/// capitals, says whether the lid is closed; `closed` goes before `open`.
pub proof fn first_state_file_decides(files: Seq<Option<String>>, k: int)
    requires
        0 <= k < files.len(),
        forall|i: int|
            0 <= i < k ==> ((#[trigger] files[i]) matches Some(s) ==> !text::occurs(
                text::lowered(s@),
                "closed"@,
            ) && !text::occurs(text::lowered(s@), "open"@)),
        files[k] matches Some(s) && (text::occurs(text::lowered(s@), "closed"@) || text::occurs(
            text::lowered(s@),
            "open"@,
        )),
    ensures
        closed_by(files) == text::occurs(text::lowered(files[k]->0@), "closed"@),
    decreases k,
{
    if k > 0 {
        let rest = files.skip(1);
        assert(files[0] == files[0]);
        assert forall|i: int| 0 <= i < k - 1 implies ((#[trigger] rest[i]) matches Some(s)
            ==> !text::occurs(text::lowered(s@), "closed"@) && !text::occurs(
            text::lowered(s@),
            "open"@,
        )) by {
            assert(rest[i] == files[i + 1]);
        }
        first_state_file_decides(rest, k - 1);
    }
}

/// A lid of which no state file says anything is open.
pub proof fn silent_lid_is_open(files: Seq<Option<String>>)
    requires
        forall|i: int|
            0 <= i < files.len() ==> ((#[trigger] files[i]) matches Some(s) ==> !text::occurs(
                text::lowered(s@),
                "closed"@,
            ) && !text::occurs(text::lowered(s@), "open"@)),
    ensures
        !closed_by(files),
    decreases files.len(),
{
    if files.len() > 0 {
        let rest = files.skip(1);
        assert(files[0] == files[0]);
        assert forall|i: int| 0 <= i < rest.len() implies ((#[trigger] rest[i]) matches Some(s)
            ==> !text::occurs(text::lowered(s@), "closed"@) && !text::occurs(
            text::lowered(s@),
            "open"@,
        )) by {
            assert(rest[i] == files[i + 1]);
        }
        silent_lid_is_open(rest);
    }
}

/// A profile without a comma is its own candidate, trimmed, unless it is blank.
pub proof fn one_profile_is_one_candidate(profile: Seq<char>)
    requires
        !profile.contains(','),
    ensures
        text::trimmed(profile).len() > 0 ==> candidates(profile) == seq![text::trimmed(profile)],
        text::trimmed(profile).len() == 0 ==> candidates(profile) == Seq::<Seq<char>>::empty(),
{
    text::unseparated_text_is_one_piece(profile, ',', ',');
    let one = seq![profile];
    assert(one.drop_last() =~= Seq::empty());
    assert(present(one.drop_last()) =~= Seq::empty());
    assert(one.last() == profile);
    assert(Seq::<Seq<char>>::empty().push(text::trimmed(profile)) =~= seq![
        text::trimmed(profile),
    ]);
}

/// A comma parts the candidates before it from those behind it.
pub proof fn commas_part_the_candidates(before: Seq<char>, behind: Seq<char>)
    ensures
        candidates(before.push(',') + behind) == candidates(before) + candidates(behind),
{
    text::separators_part_the_pieces(before, ',', behind, ',', ',');
    lemma_present(text::pieces(before, ',', ','), text::pieces(behind, ',', ','));
}

/// What is present in two lists, one behind the other.
proof fn lemma_present(a: Seq<Seq<char>>, b: Seq<Seq<char>>)
    ensures
        present(a + b) == present(a) + present(b),
    decreases b.len(),
{
    if b.len() == 0 {
        assert(a + b =~= a);
        assert(present(a) + present(b) =~= present(a));
    } else {
        assert((a + b).drop_last() =~= a + b.drop_last());
        assert((a + b).last() == b.last());
        lemma_present(a, b.drop_last());
        assert(present(a + b) =~= present(a) + present(b));
    }
}

/// With the lid open the internal panel alone is switched to exactly if it is
/// the only output; with the lid closed the profile for that is switched to
/// exactly if there is an external output. Otherwise it is the profile for an
/// open lid, and the internal panel alone.
pub proof fn switches_fit_the_outputs(internal: bool, external: bool)
    ensures
        ({
            let topology = DisplayTopology {
                internal_connected: internal,
                external_connected: external,
            };
            &&& open_switch(topology) is Undocked <==> internal && !external
            &&& open_switch(topology) is Open <==> !internal || external
            &&& closed_switch(topology) is Close <==> external
            &&& closed_switch(topology) is Undocked <==> !external
            &&& current_switch(true, topology) == closed_switch(topology)
            &&& current_switch(false, topology) == open_switch(topology)
        }),
{
}

/// Each switch goes to the profiles configured for it, by `kanshictl switch`;
/// the panel is switched on by `wlr-randr` with its preferred mode.
pub proof fn switches_go_to_their_profiles(config: Lid, profile: Seq<char>, output: Seq<char>)
    ensures
        switch_profile(config, Switch::Undocked) == config.undocked_profile@,
        switch_profile(config, Switch::Open) == config.open_profile@,
        switch_profile(config, Switch::Close) == config.close_profile@,
        profile_command(profile) == seq!["kanshictl"@, "switch"@].push(profile),
        panel_command(output) == seq!["wlr-randr"@, "--output"@].push(output) + seq![
            "--on"@,
            "--preferred"@,
        ],
{
    assert(profile_command(profile) =~= seq!["kanshictl"@, "switch"@].push(profile));
    assert(panel_command(output) =~= seq!["wlr-randr"@, "--output"@].push(output) + seq![
        "--on"@,
        "--preferred"@,
    ]);
}

} // verus!
