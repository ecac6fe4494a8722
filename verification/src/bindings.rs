//! Keybindings: the bindings to register, and the actions that they run.
use vstd::prelude::*;
use vstd::string::*;

use crate::config::{Binding, Config};
use crate::text;

verus! {

/// The modifiers that a binding asks for.
#[derive(Clone, Copy, PartialEq, Eq, Debug, Structural)]
pub struct Modifiers {
    pub shift: bool,
    pub ctrl: bool,
    pub mod1: bool,
    pub mod3: bool,
    pub mod4: bool,
    pub mod5: bool,
}

/// The modifiers of which none is set.
pub open spec fn no_modifiers() -> Modifiers {
    Modifiers { shift: false, ctrl: false, mod1: false, mod3: false, mod4: false, mod5: false }
}

impl Modifiers {
    /// No modifiers.
    pub fn empty() -> (r: Modifiers)
        ensures
            r == no_modifiers(),
    {
        Modifiers { shift: false, ctrl: false, mod1: false, mod3: false, mod4: false, mod5: false }
    }

    /// Whether no modifier is set.
    pub fn is_empty(&self) -> (r: bool)
        ensures
            r == (*self == no_modifiers()),
    {
        !self.shift && !self.ctrl && !self.mod1 && !self.mod3 && !self.mod4 && !self.mod5
    }
}

/// The keysym value of a key name: an ASCII letter or digit stands for itself,
/// and a few keys have names.
pub open spec fn keysym(name: Seq<char>) -> Option<u32> {
    if name.len() == 1 && is_alphanumeric(name[0]) {
        Some(name[0] as u32)
    } else if name == "Return"@ {
        Some(0xff0d)
    } else if name == "space"@ {
        Some(0x20)
    } else if name == "Escape"@ {
        Some(0xff1b)
    } else if name == "Tab"@ {
        Some(0xff09)
    } else if name == "BackSpace"@ {
        Some(0xff08)
    } else if name == "Left"@ {
        Some(0xff51)
    } else if name == "Up"@ {
        Some(0xff52)
    } else if name == "Right"@ {
        Some(0xff53)
    } else if name == "Down"@ {
        Some(0xff54)
    } else if name == "F1"@ {
        Some(0xffbe)
    } else if name == "F2"@ {
        Some(0xffbf)
    } else if name == "F3"@ {
        Some(0xffc0)
    } else if name == "F4"@ {
        Some(0xffc1)
    } else if name == "F5"@ {
        Some(0xffc2)
    } else if name == "F6"@ {
        Some(0xffc3)
    } else if name == "F7"@ {
        Some(0xffc4)
    } else if name == "F8"@ {
        Some(0xffc5)
    } else if name == "F9"@ {
        Some(0xffc6)
    } else if name == "F10"@ {
        Some(0xffc7)
    } else if name == "F11"@ {
        Some(0xffc8)
    } else if name == "F12"@ {
        Some(0xffc9)
    } else if name == "XF86AudioRaiseVolume"@ {
        Some(269025043)
    } else if name == "XF86AudioLowerVolume"@ {
        Some(269025041)
    } else if name == "XF86AudioMute"@ {
        Some(269025042)
    } else if name == "XF86AudioMicMute"@ {
        Some(269025202)
    } else if name == "XF86MonBrightnessUp"@ {
        Some(269025026)
    } else if name == "XF86MonBrightnessDown"@ {
        Some(269025027)
    } else {
        None
    }
}

/// Whether `c` is an ASCII letter or digit.
pub open spec fn is_alphanumeric(c: char) -> bool {
    'a' <= c <= 'z' || 'A' <= c <= 'Z' || '0' <= c <= '9'
}

/// The value of an ASCII letter or digit.
fn alphanumeric(c: char) -> (r: Option<u32>)
    ensures
        r == (if is_alphanumeric(c) {
            Some(c as u32)
        } else {
            None
        }),
{
    if ('a' <= c && c <= 'z') || ('A' <= c && c <= 'Z') || ('0' <= c && c <= '9') {
        Some(c as u32)
    } else {
        None
    }
}

/// Parse a keysym name into its xkbcommon keysym value.
pub fn parse_keysym(name: &str) -> (r: Option<u32>)
    ensures
        r == keysym(name@),
{
    if name.unicode_len() == 1 {
        if let Some(v) = alphanumeric(name.get_char(0)) {
            return Some(v);
        }
    }
    if text::same(name, "Return") {
        Some(0xff0d)
    } else if text::same(name, "space") {
        Some(0x20)
    } else if text::same(name, "Escape") {
        Some(0xff1b)
    } else if text::same(name, "Tab") {
        Some(0xff09)
    } else if text::same(name, "BackSpace") {
        Some(0xff08)
    } else if text::same(name, "Left") {
        Some(0xff51)
    } else if text::same(name, "Up") {
        Some(0xff52)
    } else if text::same(name, "Right") {
        Some(0xff53)
    } else if text::same(name, "Down") {
        Some(0xff54)
    } else if text::same(name, "F1") {
        Some(0xffbe)
    } else if text::same(name, "F2") {
        Some(0xffbf)
    } else if text::same(name, "F3") {
        Some(0xffc0)
    } else if text::same(name, "F4") {
        Some(0xffc1)
    } else if text::same(name, "F5") {
        Some(0xffc2)
    } else if text::same(name, "F6") {
        Some(0xffc3)
    } else if text::same(name, "F7") {
        Some(0xffc4)
    } else if text::same(name, "F8") {
        Some(0xffc5)
    } else if text::same(name, "F9") {
        Some(0xffc6)
    } else if text::same(name, "F10") {
        Some(0xffc7)
    } else if text::same(name, "F11") {
        Some(0xffc8)
    } else if text::same(name, "F12") {
        Some(0xffc9)
    } else if text::same(name, "XF86AudioRaiseVolume") {
        Some(269025043)
    } else if text::same(name, "XF86AudioLowerVolume") {
        Some(269025041)
    } else if text::same(name, "XF86AudioMute") {
        Some(269025042)
    } else if text::same(name, "XF86AudioMicMute") {
        Some(269025202)
    } else if text::same(name, "XF86MonBrightnessUp") {
        Some(269025026)
    } else if text::same(name, "XF86MonBrightnessDown") {
        Some(269025027)
    } else {
        None
    }
}

/// A list of modifiers, as it is split at commas and plus signs.
pub open spec fn listed_modifiers(s: Seq<char>) -> Seq<Seq<char>> {
    text::pieces(s, ',', '+')
}

/// The name that a part of a modifier list gives, whatever its case and the
/// white space around it.
pub open spec fn part_name(part: Seq<char>) -> Seq<char> {
    text::lowered(text::trimmed(part))
}

/// Whether `name` is the name of one of the first `n` of `parts`.
pub open spec fn names(parts: Seq<Seq<char>>, n: int, name: Seq<char>) -> bool {
    exists|i: int| 0 <= i < n && part_name(#[trigger] parts[i]) == name
}

/// The modifiers that the first `n` of `parts` name.
pub open spec fn named_modifiers(parts: Seq<Seq<char>>, n: int) -> Modifiers {
    Modifiers {
        shift: names(parts, n, "shift"@),
        ctrl: names(parts, n, "ctrl"@) || names(parts, n, "control"@),
        mod1: names(parts, n, "alt"@) || names(parts, n, "mod1"@),
        mod3: names(parts, n, "mod3"@),
        mod4: names(parts, n, "super"@) || names(parts, n, "mod4"@) || names(parts, n, "logo"@),
        mod5: names(parts, n, "mod5"@),
    }
}

/// The modifier that the configuration names.
pub open spec fn default_modifiers(config: Seq<char>) -> Modifiers {
    if text::occurs(config, "super"@) || text::occurs(config, "mod4"@) {
        Modifiers { mod4: true, ..no_modifiers() }
    } else if text::occurs(config, "alt"@) || text::occurs(config, "mod1"@) {
        Modifiers { mod1: true, ..no_modifiers() }
    } else if text::occurs(config, "ctrl"@) {
        Modifiers { ctrl: true, ..no_modifiers() }
    } else {
        no_modifiers()
    }
}

/// The modifiers that a binding asks for: none for the word `none`, those that
/// it lists, or the configured one where it lists none.
pub open spec fn modifiers(s: Seq<char>, config: Seq<char>) -> Modifiers {
    let parts = listed_modifiers(s);
    let named = named_modifiers(parts, parts.len() as int);
    if part_name(s) == "none"@ {
        no_modifiers()
    } else if named == no_modifiers() {
        default_modifiers(config)
    } else {
        named
    }
}

/// How one more part extends what a list names.
proof fn lemma_names(parts: Seq<Seq<char>>, n: int, name: Seq<char>)
    requires
        0 <= n < parts.len(),
    ensures
        names(parts, n + 1, name) == (names(parts, n, name) || part_name(parts[n]) == name),
{
    if names(parts, n + 1, name) && part_name(parts[n]) != name {
        let i = choose|i: int|
            0 <= i < n + 1 && part_name(#[trigger] parts[i]) == name;
        assert(0 <= i < n);
    }
    if names(parts, n, name) {
        let i = choose|i: int|
            0 <= i < n && part_name(#[trigger] parts[i]) == name;
        assert(0 <= i < n + 1);
    }
}

/// Parse a modifier list, with the configured modifier for an empty one.
pub fn parse_modifiers(s: &str, config_modifier: &str) -> (r: Modifiers)
    ensures
        r == modifiers(s@, config_modifier@),
{
    let mut m = Modifiers::empty();
    if text::lower_same(text::trim(s), "none") {
        return m;
    }
    let parts = text::split(s, ',', '+');
    let ghost listed = listed_modifiers(s@);
    assert(m == named_modifiers(listed, 0));
    let mut i: usize = 0;
    while i < parts.len()
        invariant
            listed == listed_modifiers(s@),
            i <= parts@.len() == listed.len(),
            forall|k: int| 0 <= k < parts@.len() ==> (#[trigger] parts@[k])@ == listed[k],
            m == named_modifiers(listed, i as int),
        decreases parts@.len() - i,
    {
        let part = text::trim(parts[i]);
        proof {
            assert(part@ == text::trimmed(listed[i as int]));
            lemma_names(listed, i as int, "shift"@);
            lemma_names(listed, i as int, "ctrl"@);
            lemma_names(listed, i as int, "control"@);
            lemma_names(listed, i as int, "alt"@);
            lemma_names(listed, i as int, "mod1"@);
            lemma_names(listed, i as int, "mod3"@);
            lemma_names(listed, i as int, "super"@);
            lemma_names(listed, i as int, "mod4"@);
            lemma_names(listed, i as int, "logo"@);
            lemma_names(listed, i as int, "mod5"@);
        }
        m.shift = m.shift || text::lower_same(part, "shift");
        m.ctrl = m.ctrl || text::lower_same(part, "ctrl") || text::lower_same(part, "control");
        m.mod1 = m.mod1 || text::lower_same(part, "alt") || text::lower_same(part, "mod1");
        m.mod3 = m.mod3 || text::lower_same(part, "mod3");
        m.mod4 = m.mod4 || text::lower_same(part, "super") || text::lower_same(part, "mod4")
            || text::lower_same(part, "logo");
        m.mod5 = m.mod5 || text::lower_same(part, "mod5");
        i += 1;
    }
    if m.is_empty() {
        if text::contains(config_modifier, "super") || text::contains(config_modifier, "mod4") {
            m.mod4 = true;
        } else if text::contains(config_modifier, "alt") || text::contains(
            config_modifier,
            "mod1",
        ) {
            m.mod1 = true;
        } else if text::contains(config_modifier, "ctrl") {
            m.ctrl = true;
        }
    }
    m
}

/// The actions whose bindings are active in resize mode only.
pub open spec fn is_resize_action(action: Seq<char>) -> bool {
    action == "resize_step_left"@ || action == "resize_step_right"@ || action
        == "exit_resize_mode"@
}

/// Whether an action is a resize-mode binding, to be active only while resize
/// mode is entered. These bindings have no modifier, so they would otherwise
/// swallow the plain keys across the whole session.
pub fn is_resize_binding(action: &str) -> (r: bool)
    ensures
        r == is_resize_action(action@),
{
    text::same(action, "resize_step_left") || text::same(action, "resize_step_right")
        || text::same(action, "exit_resize_mode")
}

/// A binding: key name, modifier list and action.
pub open spec fn binding_view(b: (String, String, String)) -> (Seq<char>, Seq<char>, Seq<char>) {
    (b.0@, b.1@, b.2@)
}

/// The views of a list of bindings.
pub open spec fn binding_views(list: Seq<(String, String, String)>) -> Seq<
    (Seq<char>, Seq<char>, Seq<char>),
> {
    Seq::new(list.len(), |i: int| binding_view(list[i]))
}

/// The configured modifier together with shift.
pub open spec fn with_shift(modifier: Seq<char>) -> Seq<char> {
    modifier + "+shift"@
}

/// The bindings of the core actions.
pub open spec fn core_bindings(modifier: Seq<char>) -> Seq<(Seq<char>, Seq<char>, Seq<char>)> {
    seq![
        ("Return"@, ""@, "spawn_terminal"@),
        ("d"@, ""@, "spawn_launcher"@),
        ("q"@, ""@, "close"@),
        ("E"@, modifier, "quit"@),
        ("f"@, ""@, "fullscreen"@),
        ("v"@, with_shift(modifier), "float"@),
        ("j"@, ""@, "focus_next"@),
        ("k"@, ""@, "focus_prev"@),
        ("h"@, ""@, "focus_prev_output"@),
        ("l"@, ""@, "focus_next_output"@),
        ("space"@, ""@, "cycle_layout"@),
        ("r"@, ""@, "enter_resize_mode"@),
        ("Left"@, "none"@, "resize_step_left"@),
        ("Right"@, "none"@, "resize_step_right"@),
        ("h"@, "none"@, "resize_step_left"@),
        ("l"@, "none"@, "resize_step_right"@),
        ("Escape"@, "none"@, "exit_resize_mode"@),
    ]
}

/// The bindings of the tags: for each tag its digit focuses it, and the digit
/// with shift sends the focused window to it.
pub open spec fn tag_bindings(modifier: Seq<char>, n: int) -> Seq<
    (Seq<char>, Seq<char>, Seq<char>),
> {
    Seq::new(
        (2 * n) as nat,
        |i: int|
            if i % 2 == 0 {
                (
                    text::decimal((i / 2 + 1) as nat),
                    ""@,
                    "focus_tag:"@ + text::decimal((i / 2) as nat),
                )
            } else {
                (
                    text::decimal((i / 2 + 1) as nat),
                    with_shift(modifier),
                    "send_to_tag:"@ + text::decimal((i / 2) as nat),
                )
            },
    )
}

/// The action of a configured binding: with its argument behind a colon, unless
/// the argument is empty or the action has one already.
pub open spec fn configured_action(b: Binding) -> Seq<char> {
    match b.arg {
        Some(arg) => if arg@.len() > 0 && text::position_of(b.action@, ':') == b.action@.len() {
            b.action@ + ":"@ + arg@
        } else {
            b.action@
        },
        None => b.action@,
    }
}

/// The configured bindings.
pub open spec fn configured_bindings(list: Seq<Binding>) -> Seq<
    (Seq<char>, Seq<char>, Seq<char>),
> {
    Seq::new(
        list.len(),
        |i: int| (list[i].keysym@, list[i].modifiers@, configured_action(list[i])),
    )
}

/// All bindings of a configuration.
pub open spec fn all_bindings(config: Config) -> Seq<(Seq<char>, Seq<char>, Seq<char>)> {
    core_bindings(config.modifier@) + tag_bindings(config.modifier@, 9) + configured_bindings(
        config.bindings@,
    )
}

/// A binding from its parts.
fn bind(key: &str, modifiers: &str, action: &str) -> (r: (String, String, String))
    ensures
        binding_view(r) == (key@, modifiers@, action@),
{
    (String::from_str(key), String::from_str(modifiers), String::from_str(action))
}

/// The bindings of the core actions.
fn list_core_bindings(modifier: &str, shifted: &str) -> (r: Vec<(String, String, String)>)
    requires
        shifted@ == with_shift(modifier@),
    ensures
        binding_views(r@) == core_bindings(modifier@),
{
    let mut binds: Vec<(String, String, String)> = Vec::new();
    binds.push(bind("Return", "", "spawn_terminal"));
    binds.push(bind("d", "", "spawn_launcher"));
    binds.push(bind("q", "", "close"));
    binds.push(bind("E", modifier, "quit"));
    binds.push(bind("f", "", "fullscreen"));
    binds.push(bind("v", shifted, "float"));
    binds.push(bind("j", "", "focus_next"));
    binds.push(bind("k", "", "focus_prev"));
    binds.push(bind("h", "", "focus_prev_output"));
    binds.push(bind("l", "", "focus_next_output"));
    binds.push(bind("space", "", "cycle_layout"));
    binds.push(bind("r", "", "enter_resize_mode"));
    binds.push(bind("Left", "none", "resize_step_left"));
    binds.push(bind("Right", "none", "resize_step_right"));
    binds.push(bind("h", "none", "resize_step_left"));
    binds.push(bind("l", "none", "resize_step_right"));
    binds.push(bind("Escape", "none", "exit_resize_mode"));
    assert(binding_views(binds@) =~= core_bindings(modifier@));
    binds
}

/// The action of a configured binding.
fn action_of(b: &Binding) -> (r: String)
    ensures
        r@ == configured_action(*b),
{
    match &b.arg {
        Some(arg) => {
            let inline = text::split_once(b.action.as_str(), ':');
            if !arg.as_str().is_empty() && inline.is_none() {
                text::joined(b.action.as_str(), ":", arg.as_str())
            } else {
                b.action.clone()
            }
        },
        None => b.action.clone(),
    }
}

/// Build the list of (keysym, modifiers, action) bindings.
pub fn default_bindings(config: &Config) -> (r: Vec<(String, String, String)>)
    ensures
        binding_views(r@) == all_bindings(*config),
{
    let modifier = config.modifier.as_str();
    let shifted = text::joined(modifier, "+shift", "");
    assert(shifted@ =~= with_shift(modifier@)) by {
        reveal_strlit("");
    }
    let mut binds = list_core_bindings(modifier, shifted.as_str());
    let ghost core = core_bindings(modifier@);
    let mut tag: usize = 0;
    assert(binding_views(binds@) =~= core + tag_bindings(modifier@, 0));
    while tag < 9
        invariant
            tag <= 9,
            shifted@ == with_shift(modifier@),
            binding_views(binds@) == core + tag_bindings(modifier@, tag as int),
        decreases 9 - tag,
    {
        let ghost before = binds@;
        let key = text::decimal_text(tag + 1);
        let number = text::decimal_text(tag);
        let focus = text::joined("focus_tag:", number.as_str(), "");
        let send = text::joined("send_to_tag:", number.as_str(), "");
        proof {
            reveal_strlit("");
            assert(focus@ =~= "focus_tag:"@ + text::decimal(tag as nat));
            assert(send@ =~= "send_to_tag:"@ + text::decimal(tag as nat));
        }
        binds.push(bind(key.as_str(), "", focus.as_str()));
        binds.push(bind(key.as_str(), shifted.as_str(), send.as_str()));
        proof {
            assert((2 * tag) % 2 == 0 && (2 * tag) / 2 == tag);
            assert((2 * tag + 1) % 2 == 1 && (2 * tag + 1) / 2 == tag);
            let now = binding_views(binds@);
            let want = core + tag_bindings(modifier@, tag + 1);
            assert(binding_views(before).len() == core.len() + 2 * tag);
            assert(now.len() == want.len());
            assert forall|k: int| 0 <= k < now.len() implies now[k] == want[k] by {
                if k < before.len() {
                    assert(now[k] == binding_views(before)[k]);
                } else if k == before.len() {
                    assert(k - core.len() == 2 * tag);
                } else {
                    assert(k - core.len() == 2 * tag + 1);
                }
            }
            assert(now =~= want);
        }
        tag += 1;
    }
    let ghost fixed = core + tag_bindings(modifier@, 9);
    let mut i: usize = 0;
    assert(binding_views(binds@) =~= fixed + configured_bindings(config.bindings@).take(0));
    while i < config.bindings.len()
        invariant
            i <= config.bindings@.len(),
            binding_views(binds@) == fixed + configured_bindings(config.bindings@).take(i as int),
        decreases config.bindings@.len() - i,
    {
        let ghost before = binds@;
        let b = &config.bindings[i];
        let action = action_of(b);
        binds.push(bind(b.keysym.as_str(), b.modifiers.as_str(), action.as_str()));
        proof {
            let now = binding_views(binds@);
            assert(binding_views(before).len() == fixed.len() + i);
            let want = fixed + configured_bindings(config.bindings@).take(i + 1);
            assert forall|k: int| 0 <= k < now.len() implies now[k] == want[k] by {
                if k < before.len() {
                    assert(now[k] == binding_views(before)[k]);
                }
            }
            assert(now =~= want);
        }
        i += 1;
    }
    assert(configured_bindings(config.bindings@).take(i as int) =~= configured_bindings(
        config.bindings@,
    ));
    binds
}

/// A keybinding to register for a seat.
pub struct KeyBinding {
    /// xkbcommon keysym value.
    pub keysym: u32,
    /// The modifiers that have to be held.
    pub modifiers: Modifiers,
    /// The action that it runs.
    pub action: String,
}

/// What is registered for a binding.
pub open spec fn key_binding_view(b: KeyBinding) -> (u32, Modifiers, Seq<char>) {
    (b.keysym, b.modifiers, b.action@)
}

/// What is registered for a list of bindings: those with a known key name, in
/// order.
pub open spec fn registered(
    list: Seq<(Seq<char>, Seq<char>, Seq<char>)>,
    modifier: Seq<char>,
) -> Seq<(u32, Modifiers, Seq<char>)>
    decreases list.len(),
{
    if list.len() == 0 {
        Seq::empty()
    } else {
        let before = registered(list.drop_last(), modifier);
        match keysym(list.last().0) {
            Some(key) => before.push((key, modifiers(list.last().1, modifier), list.last().2)),
            None => before,
        }
    }
}

/// The keybindings to register for a seat; bindings with an unknown key name
/// are skipped.
pub fn bind_for_seat(config: &Config) -> (r: Vec<KeyBinding>)
    ensures
        Seq::new(r@.len(), |i: int| key_binding_view(r@[i])) == registered(
            all_bindings(*config),
            config.modifier@,
        ),
{
    let binds = default_bindings(config);
    let ghost all = all_bindings(*config);
    let mut out: Vec<KeyBinding> = Vec::new();
    let mut i: usize = 0;
    assert(all.take(0) =~= Seq::empty());
    assert(Seq::new(out@.len(), |i: int| key_binding_view(out@[i])) =~= registered(
        all.take(0),
        config.modifier@,
    ));
    while i < binds.len()
        invariant
            i <= binds@.len(),
            all == binding_views(binds@),
            Seq::new(out@.len(), |i: int| key_binding_view(out@[i])) == registered(
                all.take(i as int),
                config.modifier@,
            ),
        decreases binds@.len() - i,
    {
        let ghost before = out@;
        let ghost seen = Seq::new(out@.len(), |i: int| key_binding_view(out@[i]));
        assert(all.take(i + 1).drop_last() =~= all.take(i as int));
        assert(all.take(i + 1).last() == binding_view(binds@[i as int]));
        match parse_keysym(binds[i].0.as_str()) {
            Some(keysym) => {
                let modifiers = parse_modifiers(binds[i].1.as_str(), config.modifier.as_str());
                let action = binds[i].2.clone();
                out.push(KeyBinding { keysym, modifiers, action });
                assert(Seq::new(out@.len(), |i: int| key_binding_view(out@[i])) =~= seen.push(
                    key_binding_view(out@[before.len() as int]),
                ));
            },
            None => {},
        }
        i += 1;
    }
    assert(all.take(i as int) =~= all);
    out
}

/// Linux input event code of the left mouse button.
pub const BTN_LEFT: u32 = 0x110;

/// Linux input event code of the right mouse button.
pub const BTN_RIGHT: u32 = 0x111;

/// The modifiers of the two pointer bindings of a seat: with the left button a
/// floating window is moved, with the right one it is resized.
pub fn bind_pointer_for_seat(config: &Config) -> (r: Vec<(u32, Modifiers, String)>)
    ensures
        r@.len() == 2,
        r@[0].0 == BTN_LEFT,
        r@[0].1 == modifiers(""@, config.modifier@),
        r@[0].2@ == "move"@,
        r@[1].0 == BTN_RIGHT,
        r@[1].1 == modifiers(""@, config.modifier@),
        r@[1].2@ == "resize"@,
{
    let m = parse_modifiers("", config.modifier.as_str());
    let mut out: Vec<(u32, Modifiers, String)> = Vec::new();
    out.push((BTN_LEFT, m, String::from_str("move")));
    out.push((BTN_RIGHT, m, String::from_str("resize")));
    out
}

} // verus!
