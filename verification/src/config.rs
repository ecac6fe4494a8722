//! The configuration: its schema, its defaults, and what is read off it.
use vstd::prelude::*;
use vstd::string::*;

use crate::text;

verus! {

/// The whole, as a fraction is counted: fractions are held in billionths.
pub const FRACTION_ONE: i64 = 1_000_000_000;

/// The configuration of the window manager.
#[derive(Debug, Clone)]
pub struct Config {
    /// Modifier key name: `"super"`, `"alt"` or `"ctrl"`.
    pub modifier: String,
    /// Terminal command (spawned by `Mod+Return`).
    pub terminal: String,
    /// Application launcher command (spawned by `Mod+d`).
    pub launcher: String,
    /// Gap between windows and screen edges, in logical pixels.
    pub gap: u32,
    /// Window border width, in logical pixels.
    pub border_width: u32,
    /// Unfocused window border color (`"RRGGBB"` or `"#RRGGBB"`).
    pub border_color: String,
    /// Focused window border color (`"RRGGBB"` or `"#RRGGBB"`).
    pub focused_border_color: String,
    /// Whether the pointer entering a window moves the focus to it.
    pub focus_follows_mouse: bool,
    /// Whether to ask for server-side decorations.
    pub use_ssd: bool,
    /// Custom keybindings.
    pub bindings: Vec<Binding>,
    /// Lid switch and display topology rules.
    pub lid: Lid,
    /// Whether a client of the control socket may spawn commands.
    pub allow_spawn: bool,
    /// App ids of the windows that are never tiled.
    pub floating_app_ids: Vec<String>,
    /// Initial master width fraction, in billionths, before it is clamped.
    pub master_fraction: i64,
    /// Change of the master fraction per key press in resize mode, in billionths.
    pub resize_step: i64,
}

/// A keybinding: a key combination and the action that it runs.
#[derive(Debug, Clone)]
pub struct Binding {
    /// Keysym name (e.g. `"j"`, `"Return"`, `"XF86AudioRaiseVolume"`).
    pub keysym: String,
    /// Comma- or plus-separated modifier list (e.g. `"shift,ctrl"`, `"none"`).
    pub modifiers: String,
    /// Action name (e.g. `"focus_next"`, `"spawn"`).
    pub action: String,
    /// Optional argument of the action.
    pub arg: Option<String>,
}

/// Lid switch and display topology rules for clamshell setups.
#[derive(Debug, Clone)]
pub struct Lid {
    /// Whether the lid is watched at all.
    pub enable: bool,
    /// kanshi profile for a closed lid.
    pub close_profile: String,
    /// kanshi profile for an open lid while docked.
    pub open_profile: String,
    /// kanshi profile with the internal panel alone.
    pub undocked_profile: String,
    /// Connector name of the internal panel (e.g. `"eDP-1"`).
    pub internal_output: String,
}

/// The default modifier.
pub fn default_mod() -> (r: String)
    ensures
        r@ == "super"@,
{
    String::from_str("super")
}

/// The default terminal.
pub fn default_terminal() -> (r: String)
    ensures
        r@ == "alacritty"@,
{
    String::from_str("alacritty")
}

/// The default launcher.
pub fn default_launcher() -> (r: String)
    ensures
        r@ == "alacritty"@,
{
    String::from_str("alacritty")
}

/// The default gap.
pub fn default_gap() -> (r: u32)
    ensures
        r == 8,
{
    8
}

/// The default border width.
pub fn default_border() -> (r: u32)
    ensures
        r == 2,
{
    2
}

/// The default color of unfocused borders.
pub fn default_border_color() -> (r: String)
    ensures
        r@ == "4c4c4c"@,
{
    String::from_str("4c4c4c")
}

/// The default color of focused borders.
pub fn default_focused_border_color() -> (r: String)
    ensures
        r@ == "5294e2"@,
{
    String::from_str("5294e2")
}

/// The default of the settings that are on unless they are switched off.
pub fn default_true() -> (r: bool)
    ensures
        r,
{
    true
}

/// The default master fraction: 0.55.
pub fn default_master_fraction() -> (r: i64)
    ensures
        r * 100 == 55 * FRACTION_ONE,
{
    550_000_000
}

/// The default resize step: 0.05.
pub fn default_resize_step() -> (r: i64)
    ensures
        r * 100 == 5 * FRACTION_ONE,
{
    50_000_000
}

/// The default profile for a closed lid.
pub fn default_lid_close_profile() -> (r: String)
    ensures
        r@ == "office_clamshell"@,
{
    String::from_str("office_clamshell")
}

/// The default profile for an open lid.
pub fn default_lid_open_profile() -> (r: String)
    ensures
        r@ == "office"@,
{
    String::from_str("office")
}

/// The default profile with the internal panel alone.
pub fn default_lid_undocked_profile() -> (r: String)
    ensures
        r@ == "undocked"@,
{
    String::from_str("undocked")
}

/// The default connector of the internal panel.
pub fn default_lid_internal_output() -> (r: String)
    ensures
        r@ == "eDP-1"@,
{
    String::from_str("eDP-1")
}

/// `s` without its leading `#` characters.
pub open spec fn without_hashes(s: Seq<char>) -> Seq<char>
    decreases s.len(),
{
    if s.len() > 0 && s[0] == '#' {
        without_hashes(s.subrange(1, s.len() as int))
    } else {
        s
    }
}

/// The 32-bit number that a color string writes in hexadecimal; zero for a
/// string that writes none.
pub open spec fn color_number(hex: Seq<char>) -> int {
    match text::parsed_number(without_hashes(hex), 16, u32::MAX as int) {
        Some(v) => v,
        None => 0,
    }
}

/// The red, green and blue components in the low 24 bits of `v`.
pub open spec fn rgb(v: int) -> (u8, u8, u8) {
    (((v / 0x10000) % 0x100) as u8, ((v / 0x100) % 0x100) as u8, (v % 0x100) as u8)
}

impl Config {
    /// Whether `app_id` is on the list of applications that always float.
    pub open spec fn floats(self, app_id: Seq<char>) -> bool {
        exists|i: int|
            0 <= i < self.floating_app_ids@.len() && (#[trigger] self.floating_app_ids@[i])@
                == app_id
    }

    /// Number of tags.
    pub fn num_tags(&self) -> (r: u32)
        ensures
            r == 9,
    {
        9
    }

    /// Whether a window with this app id should be floating (never tiled).
    pub fn is_floating_app(&self, app_id: &str) -> (r: bool)
        ensures
            r == self.floats(app_id@),
    {
        let mut i: usize = 0;
        while i < self.floating_app_ids.len()
            invariant
                i <= self.floating_app_ids@.len(),
                forall|j: int| 0 <= j < i ==> (#[trigger] self.floating_app_ids@[j])@ != app_id@,
            decreases self.floating_app_ids@.len() - i,
        {
            if text::same(self.floating_app_ids[i].as_str(), app_id) {
                return true;
            }
            i += 1;
        }
        false
    }

    /// The red, green and blue components of a hexadecimal color like `"4c4c4c"`.
    pub fn color(&self, hex: &str) -> (r: (u8, u8, u8))
        ensures
            r == rgb(color_number(hex@)),
    {
        let mut from: usize = 0;
        let end: usize = hex.unicode_len();
        assert(hex@.subrange(0, end as int) == hex@);
        while from < end && hex.get_char(from) == '#'
            invariant
                from <= end == hex@.len(),
                without_hashes(hex@) == without_hashes(hex@.subrange(from as int, end as int)),
            decreases end - from,
        {
            assert(hex@.subrange(from as int, end as int).subrange(1, end - from)
                =~= hex@.subrange(from + 1, end as int));
            from += 1;
        }
        let v: u64 = match text::parse_number(hex.substring_char(from, end), 16, u32::MAX as u64) {
            Some(v) => v,
            None => 0,
        };
        (((v / 0x10000) % 0x100) as u8, ((v / 0x100) % 0x100) as u8, (v % 0x100) as u8)
    }
}

impl Default for Lid {
    /// The rules of a configuration without a lid section: nothing is watched.
    fn default() -> (r: Lid)
        ensures
            !r.enable,
            r.close_profile@ == Seq::<char>::empty(),
            r.open_profile@ == Seq::<char>::empty(),
            r.undocked_profile@ == Seq::<char>::empty(),
            r.internal_output@ == Seq::<char>::empty(),
    {
        Lid {
            enable: false,
            close_profile: String::new(),
            open_profile: String::new(),
            undocked_profile: String::new(),
            internal_output: String::new(),
        }
    }
}

impl Default for Config {
    fn default() -> (r: Config)
        ensures
            r.modifier@ == "super"@,
            r.terminal@ == "alacritty"@,
            r.launcher@ == "alacritty"@,
            r.gap == 8,
            r.border_width == 2,
            r.border_color@ == "4c4c4c"@,
            r.focused_border_color@ == "5294e2"@,
            r.focus_follows_mouse,
            r.use_ssd,
            r.bindings@.len() == 0,
            !r.lid.enable,
            r.lid.close_profile@ == Seq::<char>::empty(),
            r.lid.open_profile@ == Seq::<char>::empty(),
            r.lid.undocked_profile@ == Seq::<char>::empty(),
            r.lid.internal_output@ == Seq::<char>::empty(),
            !r.allow_spawn,
            r.floating_app_ids@.len() == 0,
            r.master_fraction * 100 == 55 * FRACTION_ONE,
            r.resize_step * 100 == 5 * FRACTION_ONE,
    {
        Config {
            modifier: default_mod(),
            terminal: default_terminal(),
            launcher: default_launcher(),
            gap: default_gap(),
            border_width: default_border(),
            border_color: default_border_color(),
            focused_border_color: default_focused_border_color(),
            focus_follows_mouse: true,
            use_ssd: true,
            bindings: Vec::new(),
            lid: Lid::default(),
            allow_spawn: false,
            floating_app_ids: Vec::new(),
            master_fraction: default_master_fraction(),
            resize_step: default_resize_step(),
        }
    }
}

/// Leading `#` characters make no difference to a color.
pub proof fn hash_prefix_keeps_color(hex: Seq<char>)
    ensures
        color_number(seq!['#'] + hex) == color_number(hex),
{
    let prefixed = seq!['#'] + hex;
    assert(prefixed.subrange(1, prefixed.len() as int) =~= hex);
}

/// Digits behind others are worth what they are alone, and those before them
/// worth more by the base for each digit.
proof fn lemma_two_digits_more(a: Seq<char>, b: Seq<char>)
    requires
        b.len() == 2,
    ensures
        text::digits_value(a + b, 16) == text::digits_value(a, 16) * 256 + text::digits_value(
            b,
            16,
        ),
{
    let s = a + b;
    let t = s.drop_last();
    assert(t.drop_last() =~= a);
    assert(t.last() == b[0] && s.last() == b[1]);
    assert(b.drop_last().drop_last() =~= Seq::empty());
    assert(b.drop_last().last() == b[0] && b.last() == b[1]);
    assert(text::digits_value(b.drop_last().drop_last(), 16) == 0);
    assert(text::digits_value(b.drop_last(), 16) == text::digit_value(b[0], 16)->0);
    assert(text::digits_value(t, 16) == text::digits_value(a, 16) * 16 + text::digit_value(
        b[0],
        16,
    )->0);
}

/// Two hexadecimal digits write a number below 256.
proof fn lemma_two_digits(s: Seq<char>)
    requires
        s.len() == 2,
        text::all_digits(s, 16),
    ensures
        0 <= text::digits_value(s, 16) < 256,
{
    assert(text::digit_value(s[0], 16) is Some && text::digit_value(s[1], 16) is Some);
    assert(s.drop_last().drop_last() =~= Seq::empty());
    assert(s.drop_last().last() == s[0] && s.last() == s[1]);
    assert(text::digits_value(s.drop_last().drop_last(), 16) == 0);
    assert(text::digits_value(s.drop_last(), 16) == text::digit_value(s[0], 16)->0);
}

/// Of a color of six hexadecimal digits the first two are red, the next two
/// green and the last two blue.
pub proof fn color_has_two_digits_for_each_component(
    red: Seq<char>,
    green: Seq<char>,
    blue: Seq<char>,
)
    requires
        red.len() == 2,
        green.len() == 2,
        blue.len() == 2,
        text::all_digits(red, 16),
        text::all_digits(green, 16),
        text::all_digits(blue, 16),
    ensures
        rgb(color_number(red + green + blue)).0 == text::digits_value(red, 16),
        rgb(color_number(red + green + blue)).1 == text::digits_value(green, 16),
        rgb(color_number(red + green + blue)).2 == text::digits_value(blue, 16),
{
    let s = red + green + blue;
    let v = text::digits_value(s, 16);
    assert(text::digit_value(red[0], 16) is Some);
    assert(s[0] == red[0]);
    assert(without_hashes(s) == s);
    assert(text::unsigned_digits(s) == s);
    assert forall|i: int| 0 <= i < s.len() implies text::digit_value(
        #[trigger] s[i],
        16,
    ) is Some by {
        if i < 2 {
            assert(text::digit_value(red[i], 16) is Some);
        } else if i < 4 {
            assert(text::digit_value(green[i - 2], 16) is Some);
        } else {
            assert(text::digit_value(blue[i - 4], 16) is Some);
        }
    }
    lemma_two_digits_more(red + green, blue);
    lemma_two_digits_more(red, green);
    lemma_two_digits(red);
    lemma_two_digits(green);
    lemma_two_digits(blue);
    let r = text::digits_value(red, 16);
    let g = text::digits_value(green, 16);
    let b = text::digits_value(blue, 16);
    assert(v == r * 0x10000 + g * 0x100 + b);
    assert(color_number(s) == v);
    assert(v / 0x10000 == r && v / 0x100 == r * 0x100 + g);
}

/// A color that writes no number is black.
pub proof fn unreadable_color_is_black(hex: Seq<char>, i: int)
    requires
        0 < i < hex.len(),
        hex[0] != '#',
        text::digit_value(hex[i], 16) is None,
    ensures
        rgb(color_number(hex)) == (0u8, 0u8, 0u8),
{
    let digits = text::unsigned_digits(hex);
    assert(without_hashes(hex) == hex);
    if digits.len() < hex.len() {
        assert(digits[i - 1] == hex[i]);
    }
    assert(!text::all_digits(digits, 16));
}

} // verus!
