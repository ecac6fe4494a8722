//! The commands of the control socket: how they are read, answered and applied.
use vstd::prelude::*;
use vstd::string::*;

use crate::actions;
use crate::actions::{Effect, Outcome};
use crate::connection::{AppData, AppModel};
use crate::invariants;
use crate::json;
use crate::laws;
use crate::search;
use crate::state::{State, StateModel};
use crate::text;

verus! {

/// A control command.
#[derive(Debug, Clone, PartialEq, Eq)]
pub enum Command {
    /// Focus a tag, on the named output or the active one.
    FocusTag(u32, Option<String>),
    /// Send the focused window to a tag.
    SendToTag(u32),
    /// Focus the named output.
    FocusOutput(String),
    /// Focus the window with an application id and, if given, a title.
    FocusWindow(String, Option<String>),
    /// Spawn a command.
    Spawn(String),
    /// End the window manager.
    Quit,
    /// Run a manage sequence.
    Refresh,
}

/// The mathematical model of a [`Command`].
pub enum CommandModel {
    FocusTag(u32, Option<Seq<char>>),
    SendToTag(u32),
    FocusOutput(Seq<char>),
    FocusWindow(Seq<char>, Option<Seq<char>>),
    Spawn(Seq<char>),
    Quit,
    Refresh,
}

impl View for Command {
    type V = CommandModel;

    open spec fn view(&self) -> CommandModel {
        match *self {
            Command::FocusTag(tag, output) => CommandModel::FocusTag(tag, text::opt_view(output)),
            Command::SendToTag(tag) => CommandModel::SendToTag(tag),
            Command::FocusOutput(name) => CommandModel::FocusOutput(name@),
            Command::FocusWindow(app_id, title) => CommandModel::FocusWindow(
                app_id@,
                text::opt_view(title),
            ),
            Command::Spawn(command) => CommandModel::Spawn(command@),
            Command::Quit => CommandModel::Quit,
            Command::Refresh => CommandModel::Refresh,
        }
    }
}

/// The members of a request that commands are made of, so far as they are there
/// and of the right kind.
pub struct Fields {
    /// The name of the command.
    pub cmd: Option<String>,
    /// A tag.
    pub tag: Option<u64>,
    /// The name of an output.
    pub output: Option<String>,
    /// An application id.
    pub app_id: Option<String>,
    /// A window title.
    pub title: Option<String>,
    /// A command to spawn.
    pub command: Option<String>,
}

/// The mathematical model of [`Fields`].
pub struct FieldsModel {
    pub cmd: Option<Seq<char>>,
    pub tag: Option<u64>,
    pub output: Option<Seq<char>>,
    pub app_id: Option<Seq<char>>,
    pub title: Option<Seq<char>>,
    pub command: Option<Seq<char>>,
}

impl View for Fields {
    type V = FieldsModel;

    open spec fn view(&self) -> FieldsModel {
        FieldsModel {
            cmd: text::opt_view(self.cmd),
            tag: self.tag,
            output: text::opt_view(self.output),
            app_id: text::opt_view(self.app_id),
            title: text::opt_view(self.title),
            command: text::opt_view(self.command),
        }
    }
}

impl FieldsModel {
    /// The name of the command; empty if there is none.
    pub open spec fn name(self) -> Seq<char> {
        match self.cmd {
            Some(name) => name,
            None => ""@,
        }
    }
}

/// The lower 32 bits of a tag number.
pub open spec fn short_tag(tag: u64) -> u32 {
    (tag % 0x1_0000_0000) as u32
}

/// The command that a request is: by its name, if it has what the command needs.
pub open spec fn command_of(f: FieldsModel) -> Option<CommandModel> {
    let name = f.name();
    if name == "focus_tag"@ {
        match f.tag {
            Some(tag) => Some(CommandModel::FocusTag(short_tag(tag), f.output)),
            None => None,
        }
    } else if name == "send_to_tag"@ {
        match f.tag {
            Some(tag) => Some(CommandModel::SendToTag(short_tag(tag))),
            None => None,
        }
    } else if name == "focus_output"@ {
        match f.output {
            Some(output) => Some(CommandModel::FocusOutput(output)),
            None => None,
        }
    } else if name == "focus_window"@ {
        match f.app_id {
            Some(app_id) => Some(CommandModel::FocusWindow(app_id, f.title)),
            None => None,
        }
    } else if name == "spawn"@ {
        match f.command {
            Some(command) => Some(CommandModel::Spawn(command)),
            None => None,
        }
    } else if name == "quit"@ {
        Some(CommandModel::Quit)
    } else {
        None
    }
}

/// The view of an optional command.
pub open spec fn command_view(c: Option<Command>) -> Option<CommandModel> {
    match c {
        Some(command) => Some(command@),
        None => None,
    }
}

/// The lower 32 bits of a tag number.
fn shorten(tag: u64) -> (r: u32)
    ensures
        r == short_tag(tag),
{
    (tag % 0x1_0000_0000) as u32
}

/// The command that a request is.
pub fn command_from_fields(f: &Fields) -> (r: Option<Command>)
    ensures
        command_view(r) == command_of(f@),
{
    let name: &str = match &f.cmd {
        Some(name) => name.as_str(),
        None => "",
    };
    if text::same(name, "focus_tag") {
        match f.tag {
            Some(tag) => Some(Command::FocusTag(shorten(tag), text::copy_opt(&f.output))),
            None => None,
        }
    } else if text::same(name, "send_to_tag") {
        match f.tag {
            Some(tag) => Some(Command::SendToTag(shorten(tag))),
            None => None,
        }
    } else if text::same(name, "focus_output") {
        match &f.output {
            Some(output) => Some(Command::FocusOutput(output.clone())),
            None => None,
        }
    } else if text::same(name, "focus_window") {
        match &f.app_id {
            Some(app_id) => Some(Command::FocusWindow(app_id.clone(), text::copy_opt(&f.title))),
            None => None,
        }
    } else if text::same(name, "spawn") {
        match &f.command {
            Some(command) => Some(Command::Spawn(command.clone())),
            None => None,
        }
    } else if text::same(name, "quit") {
        Some(Command::Quit)
    } else {
        None
    }
}

/// The members of a JSON value that commands are made of.
pub open spec fn fields_of(value: serde_json::Value) -> FieldsModel {
    FieldsModel {
        cmd: json::string_member(value, "cmd"@),
        tag: json::number_member(value, "tag"@),
        output: json::string_member(value, "output"@),
        app_id: json::string_member(value, "app_id"@),
        title: json::string_member(value, "title"@),
        command: json::string_member(value, "command"@),
    }
}

/// Read the members of a JSON value that commands are made of.
pub fn read_fields(value: &serde_json::Value) -> (r: Fields)
    ensures
        r@ == fields_of(*value),
{
    Fields {
        cmd: json::get_string(value, "cmd"),
        tag: json::get_number(value, "tag"),
        output: json::get_string(value, "output"),
        app_id: json::get_string(value, "app_id"),
        title: json::get_string(value, "title"),
        command: json::get_string(value, "command"),
    }
}

/// The command that a JSON value is.
pub fn parse_command_value(cmd: &serde_json::Value) -> (r: Option<Command>)
    ensures
        command_view(r) == command_of(fields_of(*cmd)),
{
    command_from_fields(&read_fields(cmd))
}

/// What is done about a line from a client.
pub enum Reply {
    /// Nothing: the line is blank, and the next one is read.
    Ignore,
    /// A snapshot is sent.
    Status,
    /// The line is refused: it is not JSON.
    BadJson,
    /// Snapshots are sent from now on.
    Subscribe,
    /// The command is applied.
    Accepted(Command),
    /// The line is refused: there is no such command, or something is missing.
    Unknown(String),
}

/// The mathematical model of a [`Reply`].
pub enum ReplyModel {
    Ignore,
    Status,
    BadJson,
    Subscribe,
    Accepted(CommandModel),
    Unknown(Seq<char>),
}

impl View for Reply {
    type V = ReplyModel;

    open spec fn view(&self) -> ReplyModel {
        match *self {
            Reply::Ignore => ReplyModel::Ignore,
            Reply::Status => ReplyModel::Status,
            Reply::BadJson => ReplyModel::BadJson,
            Reply::Subscribe => ReplyModel::Subscribe,
            Reply::Accepted(command) => ReplyModel::Accepted(command@),
            Reply::Unknown(name) => ReplyModel::Unknown(name@),
        }
    }
}

/// What is done about a JSON request.
pub open spec fn request_reply(f: FieldsModel) -> ReplyModel {
    if f.name() == "subscribe"@ {
        ReplyModel::Subscribe
    } else {
        match command_of(f) {
            Some(command) => ReplyModel::Accepted(command),
            None => ReplyModel::Unknown(f.name()),
        }
    }
}

/// Decide about a JSON request.
pub fn answer_request(f: &Fields) -> (r: Reply)
    ensures
        r@ == request_reply(f@),
{
    let name: &str = match &f.cmd {
        Some(name) => name.as_str(),
        None => "",
    };
    if text::same(name, "subscribe") {
        Reply::Subscribe
    } else {
        match command_from_fields(f) {
            Some(command) => Reply::Accepted(command),
            None => Reply::Unknown(String::from_str(name)),
        }
    }
}

/// What is done about a line from a client: the bare word `get_status` asks for
/// a snapshot, and everything else is JSON.
pub open spec fn line_reply(line: Seq<char>) -> ReplyModel {
    let request = text::trimmed(line);
    if request.len() == 0 {
        ReplyModel::Ignore
    } else if request == "get_status"@ {
        ReplyModel::Status
    } else {
        match json::json_parsed(request) {
            Some(value) => request_reply(fields_of(value)),
            None => ReplyModel::BadJson,
        }
    }
}

/// Decide about a line from a client.
pub fn answer(line: &str) -> (r: Reply)
    ensures
        r@ == line_reply(line@),
{
    let request: &str = text::trim(line);
    if request.is_empty() {
        Reply::Ignore
    } else if text::same(request, "get_status") {
        Reply::Status
    } else {
        match json::parse(request) {
            Some(value) => answer_request(&read_fields(&value)),
            None => Reply::BadJson,
        }
    }
}

/// The line that a client is answered, where that does not depend on the state.
pub open spec fn reply_text(reply: ReplyModel) -> Option<Seq<char>> {
    match reply {
        ReplyModel::Accepted(_) => Some("{\"status\":\"ok\"}"@),
        ReplyModel::BadJson => Some("{\"error\":\"bad json\"}"@),
        ReplyModel::Unknown(name) => Some("{\"error\":\"unknown command: "@ + name + "\"}"@),
        _ => None,
    }
}

/// The line that a client is answered.
pub fn reply_line(reply: &Reply) -> (r: Option<String>)
    ensures
        text::opt_view(r) == reply_text(reply@),
{
    match reply {
        Reply::Accepted(_) => Some(String::from_str("{\"status\":\"ok\"}")),
        Reply::BadJson => Some(String::from_str("{\"error\":\"bad json\"}")),
        Reply::Unknown(name) => Some(
            text::joined("{\"error\":\"unknown command: ", name.as_str(), "\"}"),
        ),
        _ => None,
    }
}

/// Whether the window at an index has an application id and, if one is given,
/// a title.
pub open spec fn answers_to(s: StateModel, app_id: Seq<char>, title: Option<Seq<char>>) -> spec_fn(
    int,
) -> bool {
    |i: int|
        {
            &&& text::opt_view(s.windows[i].app_id) == Some(app_id)
            &&& title is None || text::opt_view(s.windows[i].title) == title
        }
}

/// The state after the first window with an application id and title got the
/// focus, with its tag and the output that owns the tag.
pub open spec fn window_focused(
    s: StateModel,
    app_id: Seq<char>,
    title: Option<Seq<char>>,
) -> StateModel {
    match search::least(s.windows.len() as int, answers_to(s, app_id, title)) {
        Some(i) => {
            let w = s.windows[i];
            match s.owner(w.tag) {
                Some(o) => StateModel { focused_output: Some(o), ..s }.with_active(
                    o as int,
                    w.tag,
                ).with_focus(o as int, Some(w.id)),
                None => s,
            }
        },
        None => s,
    }
}

/// Give the focus to the first window with an application id and title.
fn focus_window(state: &mut State, app_id: &str, title: &Option<String>)
    requires
        old(state)@.wf(),
    ensures
        final(state)@ == window_focused(old(state)@, app_id@, text::opt_view(*title)),
{
    let ghost n = state.windows@.len() as int;
    let ghost holds = answers_to(state@, app_id@, text::opt_view(*title));
    let mut i: usize = 0;
    while i < state.windows.len()
        invariant
            *state == *old(state),
            state@.wf(),
            i <= state.windows@.len() == n,
            holds == answers_to(state@, app_id@, text::opt_view(*title)),
            forall|k: int| 0 <= k < i ==> !(#[trigger] holds(k)),
        decreases state.windows@.len() - i,
    {
        let titled: bool = match title {
            None => true,
            Some(t) => text::opt_same(&state.windows[i].title, t.as_str()),
        };
        if text::opt_same(&state.windows[i].app_id, app_id) && titled {
            proof {
                assert(search::is_least(n, holds, i as int));
                search::lemma_least_is(n, holds, i as int);
            }
            let id: u32 = state.windows[i].id;
            let tag: usize = state.windows[i].tag;
            if let Some(o) = state.tag_owner(tag) {
                assert(state@.tags[tag as int].output == Some(o));
                state.focused_output = Some(o);
                state.outputs[o].active_tag = tag;
                state.outputs[o].focused_window = Some(id);
                assert(state@ =~= window_focused(old(state)@, app_id@, text::opt_view(*title)));
            }
            return ;
        }
        i += 1;
    }
    proof {
        search::lemma_least_none(n, holds);
    }
}

/// The output that a command is for: the named one, or the active one.
pub open spec fn target_output(s: StateModel, name: Option<Seq<char>>) -> Option<usize> {
    match name {
        Some(n) => match s.output_by_name(n) {
            Some(o) => Some(o as usize),
            None => None,
        },
        None => s.active_output(),
    }
}

/// The context after a command; `Spawn` and `Refresh` leave it as it is.
pub open spec fn commanded(d: AppModel, command: CommandModel) -> AppModel {
    match command {
        CommandModel::FocusTag(tag, output) => match target_output(d.state, output) {
            Some(o) => d.with_state(d.state.tag_focused(o, tag as usize)),
            None => d,
        },
        CommandModel::SendToTag(tag) => match d.state.active_output() {
            Some(o) => d.with_state(d.state.focused_sent(o, tag as usize)),
            None => d,
        },
        CommandModel::FocusOutput(name) => match d.state.output_by_name(name) {
            Some(o) => d.with_state(StateModel { focused_output: Some(o as usize), ..d.state }),
            None => d,
        },
        CommandModel::FocusWindow(app_id, title) => d.with_state(
            window_focused(d.state, app_id, title),
        ),
        CommandModel::Spawn(_) => d,
        CommandModel::Quit => AppModel { quit: true, ..d },
        CommandModel::Refresh => d,
    }
}

/// The command that a control command spawns: only where that is allowed.
pub open spec fn commanded_spawn(d: AppModel, command: CommandModel) -> Option<Seq<char>> {
    match command {
        CommandModel::Spawn(c) => if d.config.allow_spawn {
            Some(c)
        } else {
            None
        },
        _ => None,
    }
}

/// What a control command does. A manage sequence always follows.
pub open spec fn command_applied(d: AppModel, command: CommandModel) -> Outcome {
    Outcome { data: commanded(d, command), manage: true, spawn: commanded_spawn(d, command) }
}

/// Apply a control command.
pub fn apply_command(data: &mut AppData, cmd: Command) -> (r: Effect)
    requires
        old(data).state@.wf(),
    ensures
        actions::outcome(final(data)@, r) == command_applied(old(data)@, cmd@),
        final(data).state@.wf(),
{
    proof {
        laws::commands_keep_wf(data@, cmd@);
    }
    let mut spawn: Option<String> = None;
    match cmd {
        Command::FocusTag(tag, output) => {
            let o: Option<usize> = match &output {
                Some(name) => data.state.find_output_by_name(name.as_str()),
                None => data.state.active_output(),
            };
            if let Some(o) = o {
                data.state.focus_tag(o, tag as usize);
            }
        },
        Command::SendToTag(tag) => {
            if let Some(o) = data.state.active_output() {
                data.state.send_focused_to_tag(o, tag as usize);
            }
        },
        Command::FocusOutput(name) => {
            if let Some(o) = data.state.find_output_by_name(name.as_str()) {
                data.state.focused_output = Some(o);
            }
        },
        Command::FocusWindow(app_id, title) => {
            focus_window(&mut data.state, app_id.as_str(), &title);
        },
        Command::Spawn(command) => {
            if data.config.allow_spawn {
                spawn = Some(command);
            }
        },
        Command::Quit => {
            data.quit = true;
        },
        Command::Refresh => {},
    }
    Effect { manage: true, spawn }
}

/// Where commands of the control socket may not spawn, none does, whatever
/// line it came in on.
pub proof fn guarded_socket_never_spawns(d: AppModel, line: Seq<char>)
    requires
        !d.config.allow_spawn,
    ensures
        match line_reply(line) {
            ReplyModel::Accepted(command) => command_applied(d, command).spawn is None,
            _ => true,
        },
{
}

/// A request with the name of no command, or without what the command needs, is
/// answered with an error that names it, and nothing is applied.
pub proof fn refused_requests_are_named(f: FieldsModel)
    requires
        command_of(f) is None,
        f.name() != "subscribe"@,
    ensures
        reply_text(request_reply(f)) == Some(
            "{\"error\":\"unknown command: "@ + f.name() + "\"}"@,
        ),
{
}

/// The file name of the socket of a display.
pub open spec fn socket_name(display: Option<Seq<char>>) -> Seq<char> {
    "streamwm-"@ + (match display {
        Some(name) => name,
        None => "wayland-0"@,
    }) + ".sock"@
}

/// The file name of the socket of a display, by its name in the environment.
pub fn socket_file(display: &Option<String>) -> (r: String)
    ensures
        r@ == socket_name(text::opt_view(*display)),
{
    match display {
        Some(name) => text::joined("streamwm-", name.as_str(), ".sock"),
        None => text::joined("streamwm-", "wayland-0", ".sock"),
    }
}

/// The directory of the socket, by what the environment says.
pub fn socket_dir(runtime: &Option<String>) -> (r: String)
    ensures
        r@ == match *runtime {
            Some(dir) => dir@,
            None => "/tmp"@,
        },
{
    match runtime {
        Some(dir) => dir.clone(),
        None => String::from_str("/tmp"),
    }
}

/// Every line that is not blank is answered: with snapshots where it asks for
/// them, with `ok` exactly if it is a command that is applied, and with an error
/// otherwise.
pub proof fn every_line_is_answered(line: Seq<char>)
    ensures
        line_reply(line) is Ignore <==> text::trimmed(line).len() == 0,
        line_reply(line) is Ignore || line_reply(line) is Status || line_reply(line) is Subscribe
            <==> reply_text(line_reply(line)) is None,
        line_reply(line) is Accepted ==> reply_text(line_reply(line)) == Some(
            "{\"status\":\"ok\"}"@,
        ),
        line_reply(line) is BadJson ==> reply_text(line_reply(line)) == Some(
            "{\"error\":\"bad json\"}"@,
        ),
{
}

/// Whether the window at index `i` is the first with an application id and, if
/// one is given, a title.
pub open spec fn is_meant(
    s: StateModel,
    app_id: Seq<char>,
    title: Option<Seq<char>>,
    i: int,
) -> bool {
    &&& 0 <= i < s.windows.len()
    &&& s.windows[i].app_id matches Some(a) && a@ == app_id
    &&& title matches Some(wanted) ==> (s.windows[i].title matches Some(t) && t@ == wanted)
    &&& forall|j: int|
        0 <= j < i ==> !((#[trigger] s.windows[j]).app_id matches Some(a) && a@ == app_id && (
        title matches Some(wanted) ==> (s.windows[j].title matches Some(t) && t@ == wanted)))
}

/// The command to focus a window shows the first window with the application id
/// and title, where an output owns its tag: the output shows that tag and
/// focuses the window, now and when its focus is chosen anew, and is the focused
/// output. No window, tag or other output changes.
pub proof fn meant_window_is_shown_and_focused(
    d: AppModel,
    app_id: Seq<char>,
    title: Option<Seq<char>>,
    i: int,
    o: usize,
)
    requires
        d.state.wf(),
        is_meant(d.state, app_id, title, i),
        d.state.tags[d.state.windows[i].tag as int].output == Some(o),
    ensures
        ({
            let s = d.state;
            let w = s.windows[i];
            let e = command_applied(d, CommandModel::FocusWindow(app_id, title)).data;
            let t = e.state;
            &&& t.focused_output == Some(o)
            &&& t.outputs[o as int].active_tag == w.tag
            &&& t.outputs[o as int].focused_window == Some(w.id)
            &&& t.visible(w)
            &&& t.refocused(o as int) == t
            &&& t.windows == s.windows
            &&& t.tags == s.tags
            &&& t.outputs.len() == s.outputs.len()
            &&& forall|p: int|
                0 <= p < s.outputs.len() && p != o ==> #[trigger] t.outputs[p] == s.outputs[p]
            &&& e == d.with_state(
                StateModel { focused_output: t.focused_output, outputs: t.outputs, ..s },
            )
        }),
{
    let s = d.state;
    let n = s.windows.len() as int;
    let holds = answers_to(s, app_id, title);
    let w = s.windows[i];
    assert(holds(i));
    assert forall|j: int| 0 <= j < i implies !(#[trigger] holds(j)) by {
        let earlier = s.windows[j];
    }
    assert(search::is_least(n, holds, i));
    search::lemma_least_is(n, holds, i);
    let t = window_focused(s, app_id, title);
    laws::commands_keep_wf(d, CommandModel::FocusWindow(app_id, title));
    invariants::window_is_found_by_id(t, i);
    assert(t.shows(o as int, t.windows[i]));
    assert(t.refocused(o as int).outputs =~= t.outputs);
}

/// The command to focus a window changes nothing where there is no such window,
/// or no output owns its tag.
pub proof fn unmeant_windows_stay(d: AppModel, app_id: Seq<char>, title: Option<Seq<char>>)
    requires
        d.state.wf(),
        forall|i: int| #[trigger]
            is_meant(d.state, app_id, title, i) ==> d.state.tags[d.state.windows[i].tag as int].output
                is None,
    ensures
        command_applied(d, CommandModel::FocusWindow(app_id, title)).data == d,
{
    let s = d.state;
    let n = s.windows.len() as int;
    let holds = answers_to(s, app_id, title);
    search::lemma_least(n, holds);
    if let Some(i) = search::least(n, holds) {
        assert(holds(i));
        assert forall|j: int| 0 <= j < i implies !((#[trigger] s.windows[j]).app_id matches Some(a)
            && a@ == app_id && (title matches Some(wanted) ==> (s.windows[j].title matches Some(t)
            && t@ == wanted))) by {
            assert(!holds(j));
        }
        assert(is_meant(s, app_id, title, i));
    }
}

/// The command to focus an output moves the focus to the first output with the
/// name, and changes nothing else, or nothing at all where there is none.
pub proof fn named_output_is_focused(d: AppModel, name: Seq<char>, o: int)
    requires
        d.state.wf(),
    ensures
        ({
            let e = command_applied(d, CommandModel::FocusOutput(name)).data;
            &&& e == d.with_state(
                StateModel { focused_output: e.state.focused_output, ..d.state },
            )
            &&& 0 <= o < d.state.outputs.len() && (d.state.outputs[o].name matches Some(n) && n@
                == name) && (forall|j: int|
                0 <= j < o ==> !((#[trigger] d.state.outputs[j]).name matches Some(n) && n@
                    == name)) ==> e.state.focused_output == Some(o as usize)
            &&& (forall|j: int|
                0 <= j < d.state.outputs.len() ==> !((
                #[trigger] d.state.outputs[j]).name matches Some(n) && n@ == name)) ==> e == d
        }),
{
    let s = d.state;
    let n = s.outputs.len() as int;
    let holds = s.has_name(name);
    search::lemma_least(n, holds);
    if 0 <= o < n && (s.outputs[o].name matches Some(m) && m@ == name) && (forall|j: int|
        0 <= j < o ==> !((#[trigger] s.outputs[j]).name matches Some(m) && m@ == name)) {
        assert(holds(o));
        assert forall|j: int| 0 <= j < o implies !(#[trigger] holds(j)) by {
            let earlier = s.outputs[j];
        }
        assert(search::is_least(n, holds, o));
        search::lemma_least_is(n, holds, o);
    }
    if forall|j: int|
        0 <= j < n ==> !((#[trigger] s.outputs[j]).name matches Some(m) && m@ == name) {
        assert forall|j: int| 0 <= j < n implies !(#[trigger] holds(j)) by {
            let other = s.outputs[j];
        }
        search::lemma_least_none(n, holds);
    }
}

/// The command to focus a tag shows it: on the output that owns it, or else on
/// the named output, or the focused one where none is named. The output owns the
/// tag from then on, and no window moves.
pub proof fn commanded_tag_is_shown(d: AppModel, tag: u32, output: Option<Seq<char>>, o: usize)
    requires
        d.state.wf(),
        tag < 9,
        o < d.state.outputs.len(),
        match output {
            Some(name) => {
                &&& d.state.outputs[o as int].name matches Some(n) && n@ == name
                &&& forall|j: int|
                    0 <= j < o ==> !((#[trigger] d.state.outputs[j]).name matches Some(n) && n@
                        == name)
            },
            None => d.state.focused_output == Some(o) || (d.state.focused_output is None && o
                == 0),
        },
    ensures
        ({
            let s = d.state;
            let t = command_applied(d, CommandModel::FocusTag(tag, output)).data.state;
            let q = match s.tags[tag as int].output {
                Some(owner) => owner,
                None => o,
            };
            &&& t.tags[tag as int].output == Some(q)
            &&& t.outputs[q as int].active_tag == tag
            &&& t.focused_output == (if q == o {
                s.focused_output
            } else {
                Some(q)
            })
            &&& t.windows.len() == s.windows.len()
            &&& forall|i: int|
                0 <= i < s.windows.len() ==> (#[trigger] t.windows[i]).tag == s.windows[i].tag
                    && t.windows[i].id == s.windows[i].id
        }),
{
    let s = d.state;
    if let Some(name) = output {
        let holds = s.has_name(name);
        assert(holds(o as int));
        assert forall|j: int| 0 <= j < o implies !(#[trigger] holds(j)) by {
            let earlier = s.outputs[j];
        }
        assert(search::is_least(s.outputs.len() as int, holds, o as int));
        search::lemma_least_is(s.outputs.len() as int, holds, o as int);
    }
    invariants::focused_tag_is_shown_on_its_owner(s, o, tag as usize);
    invariants::focus_tag_moves_no_window(s, o, tag as usize);
    let t = command_applied(d, CommandModel::FocusTag(tag, output)).data.state;
    assert forall|i: int| 0 <= i < s.windows.len() implies (#[trigger] t.windows[i]).tag
        == s.windows[i].tag && t.windows[i].id == s.windows[i].id by {}
}

/// The command to send a window sends the focused window of the focused output,
/// and no other, to the tag.
pub proof fn commanded_window_is_sent(d: AppModel, tag: u32, i: int)
    requires
        d.state.wf(),
        tag < 9,
        d.state.outputs.len() > 0,
        0 <= i < d.state.windows.len(),
    ensures
        ({
            let s = d.state;
            let t = command_applied(d, CommandModel::SendToTag(tag)).data.state;
            let focused = match s.focused_output {
                Some(f) => s.outputs[f as int].focused_window,
                None => s.outputs[0].focused_window,
            };
            &&& t.windows[i].tag == (if focused == Some(s.windows[i].id) {
                tag as usize
            } else {
                s.windows[i].tag
            })
            &&& t.tags[tag as int].output is Some
            &&& t.focused_output == s.focused_output
        }),
{
    let o = d.state.active_output()->0;
    invariants::sent_window_is_on_the_tag(d.state, o, tag as usize, i);
}

/// Commands are obeyed as they read: one to spawn spawns its text, where that is
/// allowed, and changes nothing; one to quit ends the window manager and changes
/// nothing else; one to refresh changes nothing. No other command spawns or
/// quits, and every command is followed by a manage sequence.
pub proof fn commands_do_what_they_say(d: AppModel, command: CommandModel, text: Seq<char>)
    ensures
        ({
            let r = command_applied(d, command);
            &&& r.manage
            &&& r.spawn == Some(text) <==> d.config.allow_spawn && command == CommandModel::Spawn(
                text,
            )
            &&& command is Spawn || command is Refresh ==> r.data == d
            &&& command is Quit ==> r.data == (AppModel { quit: true, ..d })
            &&& !(command is Quit) ==> r.data == d.with_state(r.data.state)
        }),
{
}

/// What a request is read as: the command of its name, with the members of the
/// names that the command needs, each in its place.
pub proof fn requests_are_read_by_name(f: FieldsModel, tag: u64)
    requires
        tag <= u32::MAX,
        f.tag matches Some(t) ==> t == tag,
    ensures
        f.cmd == Some("focus_tag"@) && f.tag is Some ==> command_of(f) == Some(
            CommandModel::FocusTag(tag as u32, f.output),
        ),
        f.cmd == Some("send_to_tag"@) && f.tag is Some ==> command_of(f) == Some(
            CommandModel::SendToTag(tag as u32),
        ),
        f.cmd == Some("focus_output"@) ==> (f.output matches Some(name) ==> command_of(f) == Some(
            CommandModel::FocusOutput(name),
        )),
        f.cmd == Some("focus_window"@) ==> (f.app_id matches Some(app_id) ==> command_of(f)
            == Some(CommandModel::FocusWindow(app_id, f.title))),
        f.cmd == Some("spawn"@) ==> (f.command matches Some(command) ==> command_of(f) == Some(
            CommandModel::Spawn(command),
        )),
        f.cmd == Some("quit"@) ==> command_of(f) == Some(CommandModel::Quit),
        f.cmd is None ==> command_of(f) is None,
        f.cmd == Some("focus_tag"@) && f.tag is None ==> command_of(f) is None,
        f.cmd == Some("send_to_tag"@) && f.tag is None ==> command_of(f) is None,
        f.cmd == Some("focus_output"@) && f.output is None ==> command_of(f) is None,
        f.cmd == Some("focus_window"@) && f.app_id is None ==> command_of(f) is None,
        f.cmd == Some("spawn"@) && f.command is None ==> command_of(f) is None,
        command_of(f) is Some ==> f.cmd == Some("focus_tag"@) || f.cmd == Some("send_to_tag"@)
            || f.cmd == Some("focus_output"@) || f.cmd == Some("focus_window"@) || f.cmd == Some(
            "spawn"@,
        ) || f.cmd == Some("quit"@),
{
    reveal_strlit("focus_tag");
    reveal_strlit("send_to_tag");
    reveal_strlit("focus_output");
    reveal_strlit("focus_window");
    reveal_strlit("spawn");
    reveal_strlit("quit");
    reveal_strlit("");
    assert("focus_tag"@.len() == 9 && "send_to_tag"@.len() == 11 && "focus_output"@.len() == 12);
    assert("focus_window"@.len() == 12 && "spawn"@.len() == 5 && "quit"@.len() == 4);
    assert("focus_output"@[6] != "focus_window"@[6]);
}

/// The members of a request are taken from the members of the same name of the
/// JSON object: strings where strings are needed, an unsigned integer for the
/// tag.
pub proof fn members_are_read_by_name(value: serde_json::Value)
    ensures
        ({
            let f = fields_of(value);
            let members = json::json_members(value);
            &&& f.cmd == (if members.contains_key("cmd"@) {
                json::json_string(members["cmd"@])
            } else {
                None
            })
            &&& f.tag == (if members.contains_key("tag"@) {
                json::json_u64(members["tag"@])
            } else {
                None
            })
            &&& f.output == (if members.contains_key("output"@) {
                json::json_string(members["output"@])
            } else {
                None
            })
            &&& f.app_id == (if members.contains_key("app_id"@) {
                json::json_string(members["app_id"@])
            } else {
                None
            })
            &&& f.title == (if members.contains_key("title"@) {
                json::json_string(members["title"@])
            } else {
                None
            })
            &&& f.command == (if members.contains_key("command"@) {
                json::json_string(members["command"@])
            } else {
                None
            })
        }),
{
}

/// A line is read without the white space around it: the bare word asks for a
/// snapshot, anything else that is not JSON is refused, and JSON is a request.
pub proof fn lines_are_read_trimmed(line: Seq<char>)
    ensures
        ({
            let request = text::trimmed(line);
            &&& line_reply(line) is Status <==> request == "get_status"@
            &&& request.len() > 0 && request != "get_status"@ ==> (line_reply(line) is BadJson
                <==> json::json_parsed(request) is None)
            &&& request.len() > 0 && request != "get_status"@ ==> (json::json_parsed(
                request,
            ) matches Some(value) ==> line_reply(line) == request_reply(fields_of(value)))
        }),
{
    reveal_strlit("get_status");
    assert("get_status"@.len() == 10);
}

/// A request to subscribe is one whatever else it holds; no other request is.
/// Any other request is accepted as the command that it is, or refused under its
/// name, which is empty where it has none.
pub proof fn requests_are_subscriptions_or_commands(f: FieldsModel)
    ensures
        request_reply(f) is Subscribe <==> f.cmd == Some("subscribe"@),
        f.cmd != Some("subscribe"@) ==> match command_of(f) {
            Some(command) => request_reply(f) == ReplyModel::Accepted(command),
            None => request_reply(f) == ReplyModel::Unknown(
                match f.cmd {
                    Some(name) => name,
                    None => ""@,
                },
            ),
        },
{
    reveal_strlit("subscribe");
    reveal_strlit("");
    assert("subscribe"@.len() == 9 && ""@.len() == 0);
}

/// Of a tag number the lower half is taken, whatever the upper half is.
pub proof fn tags_are_cut_to_their_lower_half(upper: u32, lower: u32)
    ensures
        short_tag((upper * 0x1_0000_0000 + lower) as u64) == lower,
{
}

/// The socket of a display is named after it; without one, after the first
/// display.
pub proof fn sockets_are_named_after_displays(display: Seq<char>)
    ensures
        socket_name(Some(display)) == "streamwm-"@ + display + ".sock"@,
        socket_name(None) == socket_name(Some("wayland-0"@)),
{
}

/// A command for an output that is not there, or for a tag beyond the ninth,
/// changes nothing, and neither does one about tags where there is no output.
pub proof fn commands_that_miss_change_nothing(
    d: AppModel,
    tag: u32,
    name: Seq<char>,
    output: Option<Seq<char>>,
)
    requires
        d.state.wf(),
    ensures
        (forall|j: int|
            0 <= j < d.state.outputs.len() ==> !((
            #[trigger] d.state.outputs[j]).name matches Some(n) && n@ == name)) ==> command_applied(
            d,
            CommandModel::FocusTag(tag, Some(name)),
        ).data == d,
        tag >= 9 ==> command_applied(d, CommandModel::FocusTag(tag, output)).data == d,
        tag >= 9 ==> command_applied(d, CommandModel::SendToTag(tag)).data == d,
        d.state.outputs.len() == 0 ==> command_applied(d, CommandModel::SendToTag(tag)).data == d,
        d.state.outputs.len() == 0 ==> command_applied(
            d,
            CommandModel::FocusTag(tag, output),
        ).data == d,
{
    let s = d.state;
    let holds = s.has_name(name);
    if forall|j: int|
        0 <= j < s.outputs.len() ==> !((#[trigger] s.outputs[j]).name matches Some(n) && n@
            == name) {
        assert forall|j: int| 0 <= j < s.outputs.len() implies !(#[trigger] holds(j)) by {
            let other = s.outputs[j];
        }
        search::lemma_least_none(s.outputs.len() as int, holds);
    }
}

} // verus!
