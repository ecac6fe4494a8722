//! Which keys are bound: the key names, the bindings that are always there, and
//! those of the configuration.
use vstd::prelude::*;

use crate::bindings;
use crate::config::Config;
use crate::text;

verus! {

/// The names of keys differ in their length, or in some character.
proof fn lemma_key_names()
    ensures
        "Return"@.len() == 6,
        "Return"@[0] == 'R',
        "Return"@[1] == 'e',
        "Return"@[2] == 't',
        "Return"@[3] == 'u',
        "Return"@[4] == 'r',
        "Return"@[5] == 'n',
        "space"@.len() == 5,
        "space"@[0] == 's',
        "space"@[1] == 'p',
        "space"@[2] == 'a',
        "space"@[3] == 'c',
        "space"@[4] == 'e',
        "Escape"@.len() == 6,
        "Escape"@[0] == 'E',
        "Escape"@[1] == 's',
        "Escape"@[2] == 'c',
        "Escape"@[3] == 'a',
        "Escape"@[4] == 'p',
        "Escape"@[5] == 'e',
        "Tab"@.len() == 3,
        "Tab"@[0] == 'T',
        "Tab"@[1] == 'a',
        "Tab"@[2] == 'b',
        "BackSpace"@.len() == 9,
        "BackSpace"@[0] == 'B',
        "BackSpace"@[1] == 'a',
        "BackSpace"@[2] == 'c',
        "BackSpace"@[3] == 'k',
        "BackSpace"@[4] == 'S',
        "BackSpace"@[5] == 'p',
        "BackSpace"@[6] == 'a',
        "BackSpace"@[7] == 'c',
        "BackSpace"@[8] == 'e',
        "Left"@.len() == 4,
        "Left"@[0] == 'L',
        "Left"@[1] == 'e',
        "Left"@[2] == 'f',
        "Left"@[3] == 't',
        "Up"@.len() == 2,
        "Up"@[0] == 'U',
        "Up"@[1] == 'p',
        "Right"@.len() == 5,
        "Right"@[0] == 'R',
        "Right"@[1] == 'i',
        "Right"@[2] == 'g',
        "Right"@[3] == 'h',
        "Right"@[4] == 't',
        "Down"@.len() == 4,
        "Down"@[0] == 'D',
        "Down"@[1] == 'o',
        "Down"@[2] == 'w',
        "Down"@[3] == 'n',
        "F1"@.len() == 2,
        "F1"@[0] == 'F',
        "F1"@[1] == '1',
        "F2"@.len() == 2,
        "F2"@[0] == 'F',
        "F2"@[1] == '2',
        "F3"@.len() == 2,
        "F3"@[0] == 'F',
        "F3"@[1] == '3',
        "F4"@.len() == 2,
        "F4"@[0] == 'F',
        "F4"@[1] == '4',
        "F5"@.len() == 2,
        "F5"@[0] == 'F',
        "F5"@[1] == '5',
        "F6"@.len() == 2,
        "F6"@[0] == 'F',
        "F6"@[1] == '6',
        "F7"@.len() == 2,
        "F7"@[0] == 'F',
        "F7"@[1] == '7',
        "F8"@.len() == 2,
        "F8"@[0] == 'F',
        "F8"@[1] == '8',
        "F9"@.len() == 2,
        "F9"@[0] == 'F',
        "F9"@[1] == '9',
        "F10"@.len() == 3,
        "F10"@[0] == 'F',
        "F10"@[1] == '1',
        "F10"@[2] == '0',
        "F11"@.len() == 3,
        "F11"@[0] == 'F',
        "F11"@[1] == '1',
        "F11"@[2] == '1',
        "F12"@.len() == 3,
        "F12"@[0] == 'F',
        "F12"@[1] == '1',
        "F12"@[2] == '2',
        "XF86AudioRaiseVolume"@.len() == 20,
        "XF86AudioRaiseVolume"@[4] == 'A',
        "XF86AudioRaiseVolume"@[9] == 'R',
        "XF86AudioRaiseVolume"@[12] == 's',
        "XF86AudioRaiseVolume"@[15] == 'o',
        "XF86AudioLowerVolume"@.len() == 20,
        "XF86AudioLowerVolume"@[4] == 'A',
        "XF86AudioLowerVolume"@[9] == 'L',
        "XF86AudioLowerVolume"@[12] == 'e',
        "XF86AudioLowerVolume"@[15] == 'o',
        "XF86AudioMute"@.len() == 13,
        "XF86AudioMute"@[4] == 'A',
        "XF86AudioMute"@[9] == 'M',
        "XF86AudioMute"@[12] == 'e',
        "XF86AudioMicMute"@.len() == 16,
        "XF86AudioMicMute"@[4] == 'A',
        "XF86AudioMicMute"@[9] == 'M',
        "XF86AudioMicMute"@[12] == 'M',
        "XF86AudioMicMute"@[15] == 'e',
        "XF86MonBrightnessUp"@.len() == 19,
        "XF86MonBrightnessUp"@[4] == 'M',
        "XF86MonBrightnessUp"@[9] == 'i',
        "XF86MonBrightnessUp"@[12] == 't',
        "XF86MonBrightnessUp"@[15] == 's',
        "XF86MonBrightnessDown"@.len() == 21,
        "XF86MonBrightnessDown"@[4] == 'M',
        "XF86MonBrightnessDown"@[9] == 'i',
        "XF86MonBrightnessDown"@[12] == 't',
        "XF86MonBrightnessDown"@[15] == 's',
{
    reveal_strlit("Return");
    reveal_strlit("space");
    reveal_strlit("Escape");
    reveal_strlit("Tab");
    reveal_strlit("BackSpace");
    reveal_strlit("Left");
    reveal_strlit("Up");
    reveal_strlit("Right");
    reveal_strlit("Down");
    reveal_strlit("F1");
    reveal_strlit("F2");
    reveal_strlit("F3");
    reveal_strlit("F4");
    reveal_strlit("F5");
    reveal_strlit("F6");
    reveal_strlit("F7");
    reveal_strlit("F8");
    reveal_strlit("F9");
    reveal_strlit("F10");
    reveal_strlit("F11");
    reveal_strlit("F12");
    reveal_strlit("XF86AudioRaiseVolume");
    reveal_strlit("XF86AudioLowerVolume");
    reveal_strlit("XF86AudioMute");
    reveal_strlit("XF86AudioMicMute");
    reveal_strlit("XF86MonBrightnessUp");
    reveal_strlit("XF86MonBrightnessDown");
}

/// A single character names a key exactly if it is an ASCII letter or digit,
/// and then the key of its code.
pub proof fn characters_name_their_keys(c: char)
    ensures
        ('a' <= c <= 'z') || ('A' <= c <= 'Z') || ('0' <= c <= '9') ==> bindings::keysym(seq![c])
            == Some(c as u32),
        !('a' <= c <= 'z') && !('A' <= c <= 'Z') && !('0' <= c <= '9') ==> bindings::keysym(
            seq![c],
        ) is None,
{
    lemma_key_names();
    assert(seq![c].len() == 1);
}

/// The function keys are named by their numbers, and follow each other.
pub proof fn function_keys_follow_each_other(n: nat)
    requires
        1 <= n <= 12,
    ensures
        bindings::keysym("F"@ + text::decimal(n)) == Some((0xffbd + n) as u32),
{
    lemma_key_names();
    reveal_strlit("F");
    let name = "F"@ + text::decimal(n);
    if n >= 10 {
        assert(n / 10 == 1);
        assert(text::decimal(1) =~= seq!['1']);
        assert(text::decimal(n) =~= seq!['1', text::digit_char(n - 10)]);
    }
    assert(text::digit_char(0) == '0' && text::digit_char(1) == '1' && text::digit_char(2) == '2');
    if n == 1 {
        assert(text::digit_char(1) == '1');
        assert(name =~= "F1"@);
    }
    if n == 2 {
        assert(text::digit_char(2) == '2');
        assert(name =~= "F2"@);
    }
    if n == 3 {
        assert(text::digit_char(3) == '3');
        assert(name =~= "F3"@);
    }
    if n == 4 {
        assert(text::digit_char(4) == '4');
        assert(name =~= "F4"@);
    }
    if n == 5 {
        assert(text::digit_char(5) == '5');
        assert(name =~= "F5"@);
    }
    if n == 6 {
        assert(text::digit_char(6) == '6');
        assert(name =~= "F6"@);
    }
    if n == 7 {
        assert(text::digit_char(7) == '7');
        assert(name =~= "F7"@);
    }
    if n == 8 {
        assert(text::digit_char(8) == '8');
        assert(name =~= "F8"@);
    }
    if n == 9 {
        assert(text::digit_char(9) == '9');
        assert(name =~= "F9"@);
    }
    if n == 10 {
        assert(name =~= "F10"@);
    }
    if n == 11 {
        assert(name =~= "F11"@);
    }
    if n == 12 {
        assert(name =~= "F12"@);
    }
}

/// The keys with control characters have their codes above 0xff00, the arrow
/// keys follow each other clockwise from the left one, and the media keys have
/// the codes of the X keysyms of their vendor.
pub proof fn named_keys_have_their_codes()
    ensures
        bindings::keysym("Return"@) == Some((0xff00 + '\r' as u32) as u32),
        bindings::keysym("Tab"@) == Some((0xff00 + '\t' as u32) as u32),
        bindings::keysym("BackSpace"@) == Some((0xff00 + '\u{8}' as u32) as u32),
        bindings::keysym("Escape"@) == Some((0xff00 + '\u{1b}' as u32) as u32),
        bindings::keysym("space"@) == Some(' ' as u32),
        bindings::keysym("Left"@) == Some(0xff51u32),
        bindings::keysym("Up"@) == Some(0xff52u32),
        bindings::keysym("Right"@) == Some(0xff53u32),
        bindings::keysym("Down"@) == Some(0xff54u32),
        bindings::keysym("XF86MonBrightnessUp"@) == Some(0x1008ff02u32),
        bindings::keysym("XF86MonBrightnessDown"@) == Some(0x1008ff03u32),
        bindings::keysym("XF86AudioLowerVolume"@) == Some(0x1008ff11u32),
        bindings::keysym("XF86AudioMute"@) == Some(0x1008ff12u32),
        bindings::keysym("XF86AudioRaiseVolume"@) == Some(0x1008ff13u32),
        bindings::keysym("XF86AudioMicMute"@) == Some(0x1008ffb2u32),
{
    lemma_key_names();
}

/// No two names are those of one key.
pub proof fn keys_have_one_name(a: Seq<char>, b: Seq<char>)
    requires
        bindings::keysym(a) is Some,
        bindings::keysym(a) == bindings::keysym(b),
    ensures
        a == b,
{
    lemma_key_names();
    if a.len() == 1 && b.len() == 1 {
        assert(a =~= b);
    }
}

/// The binding of a key with modifiers to an action.
pub open spec fn binds(
    config: Config,
    key: Seq<char>,
    modifiers: Seq<char>,
    action: Seq<char>,
) -> bool {
    bindings::all_bindings(config).contains((key, modifiers, action))
}

/// What every configuration binds: the core actions to plain letters with the
/// configured modifier, quitting and floating to capital letters or shift, and
/// the keys of the resize mode to no modifier.
pub proof fn core_actions_are_bound(config: Config)
    ensures
        binds(config, "Return"@, ""@, "spawn_terminal"@),
        binds(config, "d"@, ""@, "spawn_launcher"@),
        binds(config, "q"@, ""@, "close"@),
        binds(config, "E"@, config.modifier@, "quit"@),
        binds(config, "f"@, ""@, "fullscreen"@),
        binds(config, "v"@, config.modifier@ + "+shift"@, "float"@),
        binds(config, "j"@, ""@, "focus_next"@),
        binds(config, "k"@, ""@, "focus_prev"@),
        binds(config, "h"@, ""@, "focus_prev_output"@),
        binds(config, "l"@, ""@, "focus_next_output"@),
        binds(config, "space"@, ""@, "cycle_layout"@),
        binds(config, "r"@, ""@, "enter_resize_mode"@),
        binds(config, "Left"@, "none"@, "resize_step_left"@),
        binds(config, "Right"@, "none"@, "resize_step_right"@),
        binds(config, "h"@, "none"@, "resize_step_left"@),
        binds(config, "l"@, "none"@, "resize_step_right"@),
        binds(config, "Escape"@, "none"@, "exit_resize_mode"@),
{
    let all = bindings::all_bindings(config);
    let core = bindings::core_bindings(config.modifier@);
    assert(core.len() == 17);
    assert forall|i: int| 0 <= i < 17 implies all.contains(#[trigger] core[i]) by {
        assert(all[i] == core[i]);
    }
    assert(core[0] == ("Return"@, ""@, "spawn_terminal"@));
    assert(core[1] == ("d"@, ""@, "spawn_launcher"@));
    assert(core[2] == ("q"@, ""@, "close"@));
    assert(core[3] == ("E"@, config.modifier@, "quit"@));
    assert(core[4] == ("f"@, ""@, "fullscreen"@));
    assert(core[5] == ("v"@, config.modifier@ + "+shift"@, "float"@));
    assert(core[6] == ("j"@, ""@, "focus_next"@));
    assert(core[7] == ("k"@, ""@, "focus_prev"@));
    assert(core[8] == ("h"@, ""@, "focus_prev_output"@));
    assert(core[9] == ("l"@, ""@, "focus_next_output"@));
    assert(core[10] == ("space"@, ""@, "cycle_layout"@));
    assert(core[11] == ("r"@, ""@, "enter_resize_mode"@));
    assert(core[12] == ("Left"@, "none"@, "resize_step_left"@));
    assert(core[13] == ("Right"@, "none"@, "resize_step_right"@));
    assert(core[14] == ("h"@, "none"@, "resize_step_left"@));
    assert(core[15] == ("l"@, "none"@, "resize_step_right"@));
    assert(core[16] == ("Escape"@, "none"@, "exit_resize_mode"@));
}

/// Of the core bindings, exactly those of the resize mode go without a
/// modifier.
pub proof fn resize_keys_go_without_a_modifier(modifier: Seq<char>, i: int)
    requires
        0 <= i < 17,
        modifier != "none"@,
    ensures
        bindings::core_bindings(modifier)[i].1 == "none"@ <==> bindings::is_resize_action(
            bindings::core_bindings(modifier)[i].2,
        ),
{
    reveal_strlit("");
    reveal_strlit("none");
    reveal_strlit("+shift");
    reveal_strlit("close");
    reveal_strlit("cycle_layout");
    reveal_strlit("enter_resize_mode");
    reveal_strlit("exit_resize_mode");
    reveal_strlit("float");
    reveal_strlit("focus_next");
    reveal_strlit("focus_next_output");
    reveal_strlit("focus_prev");
    reveal_strlit("focus_prev_output");
    reveal_strlit("fullscreen");
    reveal_strlit("quit");
    reveal_strlit("resize_step_left");
    reveal_strlit("resize_step_right");
    reveal_strlit("spawn_launcher");
    reveal_strlit("spawn_terminal");
    let shifted = modifier + "+shift"@;
    assert(shifted[shifted.len() - 1] == 't');
    assert("none"@[3] == 'e' && "none"@.len() == 4 && ""@.len() == 0);
    assert("resize_step_left"@.len() == 16 && "resize_step_left"@[0] == 'r');
    assert("resize_step_right"@.len() == 17 && "resize_step_right"@[0] == 'r');
    assert("exit_resize_mode"@.len() == 16 && "exit_resize_mode"@[0] == 'e');
    assert("enter_resize_mode"@.len() == 17 && "enter_resize_mode"@[0] == 'e');
    assert("focus_prev_output"@.len() == 17 && "focus_prev_output"@[0] == 'f');
    assert("focus_next_output"@.len() == 17 && "focus_next_output"@[0] == 'f');
    assert("spawn_terminal"@.len() == 14 && "spawn_launcher"@.len() == 14);
    assert("close"@.len() == 5 && "quit"@.len() == 4 && "fullscreen"@.len() == 10);
    assert("float"@.len() == 5 && "focus_next"@.len() == 10 && "focus_prev"@.len() == 10);
    assert("cycle_layout"@.len() == 12);
}

/// A configured binding stands behind the core bindings and those of the tags,
/// in the order of the configuration, with its own key and modifiers. Its
/// argument stands behind a colon, unless it is empty or the action has one.
pub proof fn configured_bindings_come_last(config: Config, i: int)
    requires
        0 <= i < config.bindings@.len(),
    ensures
        ({
            let b = config.bindings@[i];
            let bound = bindings::all_bindings(config)[35 + i];
            &&& bindings::all_bindings(config).len() == 35 + config.bindings@.len()
            &&& bound.0 == b.keysym@
            &&& bound.1 == b.modifiers@
            &&& b.arg is None ==> bound.2 == b.action@
            &&& b.arg is Some && b.arg->0@.len() == 0 ==> bound.2 == b.action@
            &&& b.action@.contains(':') ==> bound.2 == b.action@
            &&& b.arg is Some && b.arg->0@.len() > 0 && !b.action@.contains(':') ==> bound.2
                == b.action@.push(':') + b.arg->0@
        }),
{
    let b = config.bindings@[i];
    text::positions_are_of_the_first_occurrence(b.action@, ':');
    assert(bindings::core_bindings(config.modifier@).len() == 17);
    if b.action@.contains(':') {
        let k = choose|k: int| 0 <= k < b.action@.len() && b.action@[k] == ':';
        assert(text::position_of(b.action@, ':') <= k);
    } else if b.arg is Some {
        reveal_strlit(":");
        assert(b.action@ + ":"@ + b.arg->0@ =~= b.action@.push(':') + b.arg->0@);
    }
}

/// A binding is registered with the keysym of its key, the modifiers that it
/// asks for and its action; one with an unknown key is not. The order stays.
pub proof fn known_keys_are_registered(
    list: Seq<(Seq<char>, Seq<char>, Seq<char>)>,
    binding: (Seq<char>, Seq<char>, Seq<char>),
    modifier: Seq<char>,
)
    ensures
        bindings::keysym(binding.0) is None ==> bindings::registered(list.push(binding), modifier)
            == bindings::registered(list, modifier),
        bindings::keysym(binding.0) is Some ==> {
            let all = bindings::registered(list.push(binding), modifier);
            &&& all.drop_last() == bindings::registered(list, modifier)
            &&& Some(all.last().0) == bindings::keysym(binding.0)
            &&& all.last().1 == bindings::modifiers(binding.1, modifier)
            &&& all.last().2 == binding.2
        },
        bindings::registered(Seq::empty(), modifier).len() == 0,
{
    let all = list.push(binding);
    assert(all.drop_last() =~= list);
    assert(all.last() == binding);
    if bindings::keysym(binding.0) is Some {
        assert(bindings::registered(all, modifier).drop_last() =~= bindings::registered(
            list,
            modifier,
        ));
    }
}

/// A name in a modifier list asks for its modifier.
pub proof fn names_ask_for_modifiers(s: Seq<char>, config: Seq<char>, i: int)
    requires
        0 <= i < bindings::listed_modifiers(s).len(),
        bindings::part_name(s) != "none"@,
    ensures
        ({
            let name = bindings::part_name(bindings::listed_modifiers(s)[i]);
            let m = bindings::modifiers(s, config);
            &&& name == "shift"@ ==> m.shift
            &&& name == "ctrl"@ || name == "control"@ ==> m.ctrl
            &&& name == "alt"@ || name == "mod1"@ ==> m.mod1
            &&& name == "mod3"@ ==> m.mod3
            &&& name == "super"@ || name == "mod4"@ || name == "logo"@ ==> m.mod4
            &&& name == "mod5"@ ==> m.mod5
        }),
{
    let parts = bindings::listed_modifiers(s);
    let name = bindings::part_name(parts[i]);
    assert(bindings::names(parts, parts.len() as int, name));
}

/// Whether one of the parts of a modifier list has a name.
pub open spec fn lists(s: Seq<char>, name: Seq<char>) -> bool {
    exists|i: int|
        0 <= i < bindings::listed_modifiers(s).len() && bindings::part_name(
            #[trigger] bindings::listed_modifiers(s)[i],
        ) == name
}

/// A list that names some modifier asks for those that it names alone; and a
/// list that names none asks for the configured one: the logo key before the
/// alt key, and that before the control key.
pub proof fn unnamed_modifiers_are_not_asked_for(s: Seq<char>, config: Seq<char>)
    requires
        bindings::part_name(s) != "none"@,
    ensures
        ({
            let m = bindings::modifiers(s, config);
            let named = lists(s, "shift"@) || lists(s, "ctrl"@) || lists(s, "control"@) || lists(
                s,
                "alt"@,
            ) || lists(s, "mod1"@) || lists(s, "mod3"@) || lists(s, "super"@) || lists(s, "mod4"@)
                || lists(s, "logo"@) || lists(s, "mod5"@);
            &&& m.shift <==> lists(s, "shift"@)
            &&& m.mod3 <==> lists(s, "mod3"@)
            &&& m.mod5 <==> lists(s, "mod5"@)
            &&& named ==> (m.ctrl <==> lists(s, "ctrl"@) || lists(s, "control"@))
            &&& named ==> (m.mod1 <==> lists(s, "alt"@) || lists(s, "mod1"@))
            &&& named ==> (m.mod4 <==> lists(s, "super"@) || lists(s, "mod4"@) || lists(
                s,
                "logo"@,
            ))
            &&& !named ==> (m.mod4 <==> text::occurs(config, "super"@) || text::occurs(
                config,
                "mod4"@,
            ))
            &&& !named ==> (m.mod1 <==> !m.mod4 && (text::occurs(config, "alt"@) || text::occurs(
                config,
                "mod1"@,
            )))
            &&& !named ==> (m.ctrl <==> !m.mod4 && !m.mod1 && text::occurs(config, "ctrl"@))
        }),
{
    let parts = bindings::listed_modifiers(s);
    let n = parts.len() as int;
    assert forall|name: Seq<char>| #[trigger] lists(s, name) == bindings::names(parts, n, name) by {
        if lists(s, name) {
            let i = choose|i: int|
                0 <= i < n && bindings::part_name(#[trigger] bindings::listed_modifiers(s)[i])
                    == name;
            assert(bindings::part_name(parts[i]) == name);
        }
    }
}

} // verus!
