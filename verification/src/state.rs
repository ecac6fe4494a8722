//! The data model: outputs, seats, windows, the global tag table and focus.
use vstd::prelude::*;
use vstd::string::*;

use crate::search;
use crate::text;

verus! {

/// Number of global tags (0..=8, shown to users as tags 1..=9).
pub const NUM_TAGS: usize = 9;

/// The smallest master fraction, in billionths.
pub const MIN_FRACTION: i64 = 100_000_000;

/// The largest master fraction, in billionths.
pub const MAX_FRACTION: i64 = 900_000_000;

/// A global tag, shared by all outputs and owned by at most one of them.
pub struct Tag {
    /// The index of the output that owns this tag (`None` = unassigned).
    pub output: Option<usize>,
    /// Optional display label for status bars.
    pub label: Option<String>,
    /// Master fraction of this tag's layout, in billionths.
    pub master_fraction: i64,
}

/// A managed client window.
pub struct Window {
    /// Handle of the window's protocol object.
    pub proxy: u64,
    /// Identifier shown over the status socket.
    pub id: u32,
    /// The tag that this window is on.
    pub tag: usize,
    /// Identifier of this window's parent, if any.
    pub parent: Option<u32>,
    /// Application id (e.g. `"alacritty"`).
    pub app_id: Option<String>,
    /// Title text.
    pub title: Option<String>,
    /// Whether the window is floating (un-tiled).
    pub floating: bool,
    /// Floating X coordinate (logical pixels).
    pub float_x: i32,
    /// Floating Y coordinate (logical pixels).
    pub float_y: i32,
    /// Floating width (logical pixels).
    pub float_w: u32,
    /// Floating height (logical pixels).
    pub float_h: u32,
    /// Last reported content width.
    pub width: u32,
    /// Last reported content height.
    pub height: u32,
    /// Preferred minimum width (0 = no preference).
    pub min_width: u32,
    /// Preferred minimum height (0 = no preference).
    pub min_height: u32,
    /// Preferred maximum width (0 = no preference).
    pub max_width: u32,
    /// Preferred maximum height (0 = no preference).
    pub max_height: u32,
    /// Desired fullscreen state.
    pub fullscreen: bool,
    /// Whether the fullscreen request has been sent.
    pub fullscreen_applied: bool,
    /// Whether the window is minimized at its own request.
    pub minimized: bool,
    /// Last applied decoration mode (`Some(true)` = server side).
    pub ssd_applied: Option<bool>,
    /// Whether the capabilities have been sent for this window.
    pub caps_set: bool,
    /// Last tiled state sent.
    pub tiled_applied: Option<bool>,
    /// Last content dimensions proposed.
    pub proposed_dimensions: Option<(u32, u32)>,
    /// Last border sent: (focused, width, r, g, b).
    pub border_applied: Option<(bool, u32, u8, u8, u8)>,
    /// Whether the window has its render node.
    pub node: bool,
}

/// A display output (monitor).
pub struct Output {
    /// Handle of the output's protocol object.
    pub proxy: u64,
    /// Connector name (e.g. `"eDP-1"`).
    pub name: Option<String>,
    /// Registry id of the output's `wl_output`.
    pub wl_global: Option<u32>,
    /// Handle of the bound `wl_output`.
    pub wl_output: Option<u64>,
    /// X origin (logical pixels).
    pub x: i32,
    /// Y origin (logical pixels).
    pub y: i32,
    /// Total width (logical pixels).
    pub width: u32,
    /// Total height (logical pixels).
    pub height: u32,
    /// X origin of the area that panels leave free.
    pub usable_x: i32,
    /// Y origin of the area that panels leave free.
    pub usable_y: i32,
    /// Width of the area that panels leave free.
    pub usable_width: u32,
    /// Height of the area that panels leave free.
    pub usable_height: u32,
    /// The tag shown on this output.
    pub active_tag: usize,
    /// The window focused on this output.
    pub focused_window: Option<u32>,
    /// Handle of the layer-shell output object.
    pub layer: Option<u64>,
}

/// A seat (input device group).
pub struct Seat {
    /// Handle of the seat's protocol object.
    pub proxy: u64,
    /// Pointer X position.
    pub pointer_x: i32,
    /// Pointer Y position.
    pub pointer_y: i32,
    /// Window under the pointer, if any.
    pub pointer_window: Option<u32>,
    /// Handle of the layer-shell seat object.
    pub layer: Option<u64>,
}

/// The aggregate window manager state.
pub struct State {
    /// Outputs, by index.
    pub outputs: Vec<Output>,
    /// Seats.
    pub seats: Vec<Seat>,
    /// Windows, in the order in which they came.
    pub windows: Vec<Window>,
    /// The global tags.
    pub tags: Vec<Tag>,
    /// The output that has seat focus.
    pub focused_output: Option<usize>,
    /// Master fraction of newly created tags, in billionths.
    pub default_master_fraction: i64,
    /// Whether the arrow keys resize the layout.
    pub resize_mode: bool,
    /// Identifier of the next window.
    pub next_window_id: u32,
}

/// The mathematical model of a [`State`].
#[verifier::ext_equal]
pub struct StateModel {
    pub outputs: Seq<Output>,
    pub seats: Seq<Seat>,
    pub windows: Seq<Window>,
    pub tags: Seq<Tag>,
    pub focused_output: Option<usize>,
    pub default_master_fraction: i64,
    pub resize_mode: bool,
    pub next_window_id: u32,
}

/// `v`, brought into the range from `lo` to `hi`.
pub open spec fn clamped(v: int, lo: int, hi: int) -> int {
    if v < lo {
        lo
    } else if v > hi {
        hi
    } else {
        v
    }
}

/// The area of an output that windows may use: what its panels leave free, or
/// all of it where that is not known.
pub open spec fn usable_area(output: Output) -> (i32, i32, u32, u32) {
    if output.usable_width > 0 || output.usable_height > 0 {
        (output.usable_x, output.usable_y, output.usable_width, output.usable_height)
    } else {
        (output.x, output.y, output.width, output.height)
    }
}

/// Who owns a tag after output `removed` went and `remaining` outputs are left.
pub open spec fn remapped_owner(
    owner: Option<usize>,
    removed: usize,
    remaining: usize,
) -> Option<usize> {
    match owner {
        None => None,
        Some(o) => if remaining == 0 {
            None
        } else if o == removed {
            Some(0usize)
        } else if o > removed {
            Some((o - 1) as usize)
        } else {
            Some(o)
        },
    }
}

/// How far a span of length `len` can move inside one of length `room`.
pub open spec fn slack(len: u32, room: u32) -> int {
    if len >= room {
        0
    } else {
        room - len
    }
}

/// Where a rectangle of the given size lands when it is brought into an area:
/// moved as little as possible so that it lies inside, and put at the origin
/// of the area along a side that it is too long for.
pub open spec fn clamped_rect(
    x: i32,
    y: i32,
    width: u32,
    height: u32,
    area: (i32, i32, u32, u32),
) -> (int, int) {
    if area.2 == 0 || area.3 == 0 {
        (area.0 as int, area.1 as int)
    } else {
        (
            clamped(x as int, area.0 as int, area.0 + slack(width, area.2)),
            clamped(y as int, area.1 as int, area.1 + slack(height, area.3)),
        )
    }
}

/// Whether the coordinates that a rectangle may take inside an area are all
/// numbers of 32 bits.
pub open spec fn clampable(width: u32, height: u32, area: (i32, i32, u32, u32)) -> bool {
    area.2 != 0 && area.3 != 0 ==> {
        &&& slack(width, area.2) <= i32::MAX
        &&& area.0 + slack(width, area.2) <= i32::MAX
        &&& slack(height, area.3) <= i32::MAX
        &&& area.1 + slack(height, area.3) <= i32::MAX
    }
}

/// The tag that an output should show: its current one if it owns it, else the
/// first that it owns and that is occupied, else the first that it owns.
pub open spec fn chosen_tag(
    owners: Seq<Option<usize>>,
    current: usize,
    output: usize,
    occupied: spec_fn(int) -> bool,
) -> Option<int> {
    if current < owners.len() && owners[current as int] == Some(output) {
        Some(current as int)
    } else {
        match search::least(owners.len() as int, owned_and(owners, output, occupied)) {
            Some(t) => Some(t),
            None => search::least(owners.len() as int, owned(owners, output)),
        }
    }
}

/// Whether a tag is owned by `output`.
pub open spec fn owned(owners: Seq<Option<usize>>, output: usize) -> spec_fn(int) -> bool {
    |t: int| owners[t] == Some(output)
}

/// Whether a tag is owned by `output` and occupied.
pub open spec fn owned_and(
    owners: Seq<Option<usize>>,
    output: usize,
    occupied: spec_fn(int) -> bool,
) -> spec_fn(int) -> bool {
    |t: int| owners[t] == Some(output) && occupied(t)
}

impl View for State {
    type V = StateModel;

    open spec fn view(&self) -> StateModel {
        StateModel {
            outputs: self.outputs@,
            seats: self.seats@,
            windows: self.windows@,
            tags: self.tags@,
            focused_output: self.focused_output,
            default_master_fraction: self.default_master_fraction,
            resize_mode: self.resize_mode,
            next_window_id: self.next_window_id,
        }
    }
}

impl StateModel {
    /// Well-formedness: there are nine tags, owned by outputs that exist; the
    /// focused output exists; outputs show and windows are on tags that exist;
    /// window identifiers are distinct and were handed out before; and master
    /// fractions are in the legal range.
    pub open spec fn wf(self) -> bool {
        &&& self.tags.len() == NUM_TAGS
        &&& self.outputs.len() <= usize::MAX
        &&& forall|t: int|
            0 <= t < self.tags.len() ==> match (#[trigger] self.tags[t]).output {
                Some(o) => o < self.outputs.len(),
                None => true,
            }
        &&& match self.focused_output {
            Some(f) => f < self.outputs.len(),
            None => true,
        }
        &&& forall|o: int|
            0 <= o < self.outputs.len() ==> (#[trigger] self.outputs[o]).active_tag < NUM_TAGS
        &&& forall|i: int| 0 <= i < self.windows.len() ==> (#[trigger] self.windows[i]).tag < NUM_TAGS
        &&& self.ids_distinct()
        &&& self.fractions_legal()
    }

    /// Whether no two windows share an identifier and none has one that is
    /// still to be handed out. Identifiers start at 1.
    pub open spec fn ids_distinct(self) -> bool {
        &&& 1 <= self.next_window_id
        &&& forall|i: int, j: int|
            0 <= i < j < self.windows.len() ==> (#[trigger] self.windows[i]).id != (
            #[trigger] self.windows[j]).id
        &&& forall|i: int|
            0 <= i < self.windows.len() ==> 1 <= (#[trigger] self.windows[i]).id
                < self.next_window_id
    }

    /// Whether the master fraction of every tag is in the legal range.
    pub open spec fn fractions_legal(self) -> bool {
        &&& MIN_FRACTION <= self.default_master_fraction <= MAX_FRACTION
        &&& forall|t: int|
            0 <= t < self.tags.len() ==> MIN_FRACTION <= (
            #[trigger] self.tags[t]).master_fraction <= MAX_FRACTION
    }

    /// The output that owns `tag`, if any.
    pub open spec fn owner(self, tag: usize) -> Option<usize> {
        if tag < self.tags.len() {
            self.tags[tag as int].output
        } else {
            None
        }
    }

    /// The owner of each tag.
    pub open spec fn owners(self) -> Seq<Option<usize>> {
        Seq::new(self.tags.len(), |t: int| self.tags[t].output)
    }

    /// The focused output, or the first one as a fallback.
    pub open spec fn active_output(self) -> Option<usize> {
        if self.focused_output is Some {
            self.focused_output
        } else if self.outputs.len() == 0 {
            None
        } else {
            Some(0usize)
        }
    }

    /// Whether the window at an index has identifier `id`.
    pub open spec fn has_id(self, id: u32) -> spec_fn(int) -> bool {
        |i: int| self.windows[i].id == id
    }

    /// The index of the first window with identifier `id`.
    pub open spec fn window_index(self, id: u32) -> Option<int> {
        search::least(self.windows.len() as int, self.has_id(id))
    }

    /// Whether the window at an index has the protocol handle `proxy`.
    pub open spec fn has_proxy(self, proxy: u64) -> spec_fn(int) -> bool {
        |i: int| self.windows[i].proxy == proxy
    }

    /// The identifier of the first window with the protocol handle `proxy`.
    pub open spec fn window_by_proxy(self, proxy: u64) -> Option<u32> {
        match search::least(self.windows.len() as int, self.has_proxy(proxy)) {
            Some(i) => Some(self.windows[i].id),
            None => None,
        }
    }

    /// Whether the output at an index is named `name`.
    pub open spec fn has_name(self, name: Seq<char>) -> spec_fn(int) -> bool {
        |i: int| text::opt_view(self.outputs[i].name) == Some(name)
    }

    /// The index of the first output named `name`.
    pub open spec fn output_by_name(self, name: Seq<char>) -> Option<int> {
        search::least(self.outputs.len() as int, self.has_name(name))
    }

    /// Whether output `o` shows window `w`: it owns the window's tag, and that
    /// tag is the active one.
    pub open spec fn shows(self, o: int, w: Window) -> bool {
        self.owner(w.tag) == Some(o as usize) && w.tag == self.outputs[o].active_tag
    }

    /// Whether the window at an index is shown on output `o`.
    pub open spec fn shown_on(self, o: int) -> spec_fn(int) -> bool {
        |i: int| self.shows(o, self.windows[i])
    }

    /// Whether a window is visible: its tag is the active one of its owner.
    pub open spec fn visible(self, w: Window) -> bool {
        match self.owner(w.tag) {
            Some(o) => o < self.outputs.len() && self.outputs[o as int].active_tag == w.tag,
            None => false,
        }
    }

    /// Whether any window is on tag `t`.
    pub open spec fn occupied(self) -> spec_fn(int) -> bool {
        |t: int| exists|i: int| 0 <= i < self.windows.len() && (#[trigger] self.windows[i]).tag == t
    }

    /// The window that output `o` should focus: the one that it focuses, while
    /// that is still shown, else the first one shown.
    pub open spec fn focus_choice(self, o: int) -> Option<u32> {
        let focused = self.outputs[o].focused_window;
        let kept = match focused {
            Some(id) => match self.window_index(id) {
                Some(i) => self.shows(o, self.windows[i]),
                None => false,
            },
            None => false,
        };
        if kept {
            focused
        } else {
            match search::least(self.windows.len() as int, self.shown_on(o)) {
                Some(i) => Some(self.windows[i].id),
                None => None,
            }
        }
    }

    /// The state with output `o` replaced.
    pub open spec fn with_output(self, o: int, output: Output) -> StateModel {
        StateModel { outputs: self.outputs.update(o, output), ..self }
    }

    /// The state with `tag` shown on output `o`.
    pub open spec fn with_active(self, o: int, tag: usize) -> StateModel {
        self.with_output(o, Output { active_tag: tag, ..self.outputs[o] })
    }

    /// The state with window `id` focused on output `o`.
    pub open spec fn with_focus(self, o: int, id: Option<u32>) -> StateModel {
        self.with_output(o, Output { focused_window: id, ..self.outputs[o] })
    }

    /// The state with the owner of `tag` replaced.
    pub open spec fn with_owner(self, tag: int, owner: Option<usize>) -> StateModel {
        StateModel {
            tags: self.tags.update(tag, Tag { output: owner, ..self.tags[tag] }),
            ..self
        }
    }

    /// The state with the window at index `i` replaced.
    pub open spec fn with_window(self, i: int, window: Window) -> StateModel {
        StateModel { windows: self.windows.update(i, window), ..self }
    }

    /// The state with the focused window of output `o` chosen anew.
    pub open spec fn refocused(self, o: int) -> StateModel {
        self.with_focus(o, self.focus_choice(o))
    }

    /// The state with every window on `tag` out of fullscreen.
    pub open spec fn without_fullscreen(self, tag: usize) -> StateModel {
        StateModel {
            windows: Seq::new(
                self.windows.len(),
                |i: int|
                    if self.windows[i].tag == tag {
                        Window { fullscreen: false, ..self.windows[i] }
                    } else {
                        self.windows[i]
                    },
            ),
            ..self
        }
    }

    /// The state with `tag` taken from output `o`, if `o` owns it and no window
    /// is on it.
    pub open spec fn collected(self, o: int, tag: usize) -> StateModel {
        if self.owner(tag) == Some(o as usize) && !(self.occupied())(tag as int) {
            self.with_owner(tag as int, None)
        } else {
            self
        }
    }

    /// The state after `tag` became the active tag of output `o` and the tag
    /// shown before was left.
    pub open spec fn activated(self, o: int, tag: usize) -> StateModel {
        let left = self.outputs[o].active_tag;
        let shown = self.with_active(o, tag).without_fullscreen(left);
        let kept = if left != tag {
            shown.collected(o, left)
        } else {
            shown
        };
        kept.refocused(o)
    }

    /// The state after tag `tag` was focused from output `o`: on its owner, or
    /// on `o` where nobody owned it.
    pub open spec fn tag_focused(self, o: usize, tag: usize) -> StateModel {
        if tag >= NUM_TAGS || o >= self.outputs.len() {
            self
        } else {
            match self.owner(tag) {
                None => self.with_owner(tag as int, Some(o)).activated(o as int, tag),
                Some(owner) => if owner == o {
                    self.activated(o as int, tag)
                } else {
                    StateModel { focused_output: Some(owner), ..self }.activated(owner as int, tag)
                },
            }
        }
    }

    /// The state after output `o` was switched to `tag`.
    pub open spec fn tag_switched(self, o: usize, tag: usize) -> StateModel {
        if o >= self.outputs.len() {
            self
        } else {
            let left = self.outputs[o as int].active_tag;
            let shown = self.with_active(o as int, tag);
            let cleared = if left != tag {
                shown.without_fullscreen(left)
            } else {
                shown
            };
            cleared.refocused(o as int)
        }
    }

    /// The state after the focused window of output `o` was sent to `tag`.
    pub open spec fn focused_sent(self, o: usize, tag: usize) -> StateModel {
        if tag >= NUM_TAGS || o >= self.outputs.len() {
            self
        } else {
            let held = if self.owner(tag) is None {
                self.with_owner(tag as int, Some(o))
            } else {
                self
            };
            let moved = match self.outputs[o as int].focused_window {
                Some(id) => match held.window_index(id) {
                    Some(i) => held.with_window(i, Window { tag, ..held.windows[i] }),
                    None => held,
                },
                None => held,
            };
            moved.refocused(o as int)
        }
    }

    /// The tag that output `o` should show, among those that it owns.
    pub open spec fn best_tag(self, o: usize) -> Option<int> {
        if o >= self.outputs.len() {
            None
        } else {
            chosen_tag(self.owners(), self.outputs[o as int].active_tag, o, self.occupied())
        }
    }

    /// Whether the tag at an index is unassigned.
    pub open spec fn unassigned(self) -> spec_fn(int) -> bool {
        |t: int| self.tags[t].output is None
    }

    /// The first unassigned tag.
    pub open spec fn free_tag(self) -> Option<int> {
        search::least(self.tags.len() as int, self.unassigned())
    }

    /// The state after output `o` was given a tag to show, if it owned none of
    /// those that it showed, and its focus was chosen anew.
    pub open spec fn output_repaired(self, o: int) -> StateModel {
        let tagged = if self.owner(self.outputs[o].active_tag) == Some(o as usize) {
            self
        } else {
            match self.best_tag(o as usize) {
                Some(t) => self.with_active(o, t as usize),
                None => match self.free_tag() {
                    Some(t) => self.with_owner(t, Some(o as usize)).with_active(o, t as usize),
                    None => self,
                },
            }
        };
        tagged.refocused(o)
    }

    /// The state after the outputs before `n` were repaired, in order.
    pub open spec fn repaired_up_to(self, n: int) -> StateModel
        decreases n,
    {
        if n <= 0 {
            self
        } else {
            self.repaired_up_to(n - 1).output_repaired(n - 1)
        }
    }

    /// The state with a focused output that exists.
    pub open spec fn focus_checked(self) -> StateModel {
        if self.focused_output is None || self.focused_output->0 >= self.outputs.len() {
            StateModel { focused_output: Some(0usize), ..self }
        } else {
            self
        }
    }

    /// The state with every output repaired.
    pub open spec fn normalized(self) -> StateModel {
        if self.outputs.len() == 0 {
            StateModel { focused_output: None, ..self }
        } else {
            self.focus_checked().repaired_up_to(self.outputs.len() as int)
        }
    }

    /// The output that a floating window is kept on: the owner of its tag, or
    /// the focused output, or the first.
    pub open spec fn float_output(self, w: Window) -> usize {
        match self.owner(w.tag) {
            Some(o) => o,
            None => match self.focused_output {
                Some(f) => f,
                None => 0,
            },
        }
    }

    /// The area that a floating window is kept in, if it is known.
    pub open spec fn float_area(self, w: Window) -> Option<(i32, i32, u32, u32)> {
        let o = self.float_output(w);
        if o < self.outputs.len() {
            let area = usable_area(self.outputs[o as int]);
            if area.2 == 0 || area.3 == 0 {
                None
            } else {
                Some(area)
            }
        } else {
            None
        }
    }

    /// A window, brought into its area if it floats.
    pub open spec fn float_clamped(self, w: Window) -> Window {
        match self.float_area(w) {
            Some(area) => if w.floating {
                let at = clamped_rect(w.float_x, w.float_y, w.float_w, w.float_h, area);
                Window { float_x: at.0 as i32, float_y: at.1 as i32, ..w }
            } else {
                w
            },
            None => w,
        }
    }

    /// The state with every floating window inside its area.
    pub open spec fn floats_clamped(self) -> StateModel {
        StateModel {
            windows: Seq::new(
                self.windows.len(),
                |i: int| self.float_clamped(self.windows[i]),
            ),
            ..self
        }
    }

    /// Whether the coordinates of every floating window stay numbers of 32 bits
    /// when it is brought into its area.
    pub open spec fn floats_clampable(self) -> bool {
        forall|i: int|
            0 <= i < self.windows.len() && self.windows[i].floating && self.float_area(
                self.windows[i],
            ) is Some ==> clampable(
                (#[trigger] self.windows[i]).float_w,
                self.windows[i].float_h,
                self.float_area(self.windows[i])->0,
            )
    }

    /// The state without output `o`: its tags moved to the first output.
    pub open spec fn output_dropped(self, o: int) -> StateModel {
        let outputs = self.outputs.remove(o);
        let focus = match self.focused_output {
            Some(f) => if f == o {
                if outputs.len() == 0 {
                    None
                } else {
                    Some(0usize)
                }
            } else if f > o {
                Some((f - 1) as usize)
            } else {
                Some(f)
            },
            None => None,
        };
        StateModel {
            outputs,
            tags: Seq::new(
                self.tags.len(),
                |t: int|
                    Tag {
                        output: remapped_owner(
                            self.tags[t].output,
                            o as usize,
                            outputs.len() as usize,
                        ),
                        ..self.tags[t]
                    },
            ),
            focused_output: focus,
            ..self
        }
    }

    /// The state after output `o` was removed.
    pub open spec fn output_removed(self, o: usize) -> StateModel {
        if o >= self.outputs.len() {
            self
        } else {
            self.output_dropped(o as int).normalized().floats_clamped()
        }
    }

    /// The master fraction of `tag`.
    pub open spec fn fraction(self, tag: usize) -> i64 {
        if tag < self.tags.len() {
            self.tags[tag as int].master_fraction
        } else {
            self.default_master_fraction
        }
    }

    /// The master fraction of the tag that output `o` shows.
    pub open spec fn active_fraction(self, o: usize) -> i64 {
        if o < self.outputs.len() {
            self.fraction(self.outputs[o as int].active_tag)
        } else {
            self.default_master_fraction
        }
    }

    /// The state with the master fraction of `tag` set, within the legal range.
    pub open spec fn fraction_set(self, tag: usize, fraction: int) -> StateModel {
        if tag < self.tags.len() {
            let legal = clamped(fraction, MIN_FRACTION as int, MAX_FRACTION as int) as i64;
            StateModel {
                tags: self.tags.update(
                    tag as int,
                    Tag { master_fraction: legal, ..self.tags[tag as int] },
                ),
                ..self
            }
        } else {
            self
        }
    }

    /// The state after output `o` was given its first tag.
    pub open spec fn first_tag_assigned(self, o: usize) -> StateModel {
        if exists|t: int| 0 <= t < self.tags.len() && (#[trigger] self.tags[t]).output == Some(o) {
            self
        } else {
            let given = match self.free_tag() {
                Some(t) => {
                    let held = self.with_owner(t, Some(o));
                    if o < self.outputs.len() {
                        held.with_active(o as int, t as usize)
                    } else {
                        held
                    }
                },
                None => self,
            };
            given.normalized()
        }
    }
}

impl Tag {
    /// A tag that no output owns, with the given master fraction.
    pub fn unassigned(master_fraction: i64) -> (r: Tag)
        ensures
            r == (Tag { output: None, label: None, master_fraction }),
    {
        Tag { output: None, label: None, master_fraction }
    }
}

impl Window {
    /// A new tiled window with identifier `id` on `tag`.
    pub fn new(id: u32, proxy: u64, tag: usize) -> (r: Window)
        ensures
            r == new_window(id, proxy, tag),
    {
        Window {
            proxy,
            id,
            tag,
            parent: None,
            app_id: None,
            title: None,
            floating: false,
            float_x: 0,
            float_y: 0,
            float_w: 400,
            float_h: 300,
            width: 0,
            height: 0,
            min_width: 0,
            min_height: 0,
            max_width: 0,
            max_height: 0,
            fullscreen: false,
            fullscreen_applied: false,
            minimized: false,
            ssd_applied: None,
            caps_set: false,
            tiled_applied: None,
            proposed_dimensions: None,
            border_applied: None,
            node: false,
        }
    }
}

/// A window as it is first managed: tiled, untitled, with nothing sent yet and
/// a floating size of 400 by 300.
pub open spec fn new_window(id: u32, proxy: u64, tag: usize) -> Window {
    Window {
        proxy,
        id,
        tag,
        parent: None,
        app_id: None,
        title: None,
        floating: false,
        float_x: 0,
        float_y: 0,
        float_w: 400,
        float_h: 300,
        width: 0,
        height: 0,
        min_width: 0,
        min_height: 0,
        max_width: 0,
        max_height: 0,
        fullscreen: false,
        fullscreen_applied: false,
        minimized: false,
        ssd_applied: None,
        caps_set: false,
        tiled_applied: None,
        proposed_dimensions: None,
        border_applied: None,
        node: false,
    }
}

/// A state without outputs, seats and windows, all tags unassigned and with the
/// given master fraction.
pub open spec fn fresh_state(fraction: i64) -> StateModel {
    StateModel {
        outputs: Seq::empty(),
        seats: Seq::empty(),
        windows: Seq::empty(),
        tags: Seq::new(
            NUM_TAGS as nat,
            |t: int| Tag { output: None, label: None, master_fraction: fraction },
        ),
        focused_output: None,
        default_master_fraction: fraction,
        resize_mode: false,
        next_window_id: 1,
    }
}

/// An output as it is first announced: unnamed and without geometry.
pub open spec fn new_output(proxy: u64) -> Output {
    Output {
        proxy,
        name: None,
        wl_global: None,
        wl_output: None,
        x: 0,
        y: 0,
        width: 0,
        height: 0,
        usable_x: 0,
        usable_y: 0,
        usable_width: 0,
        usable_height: 0,
        active_tag: 0,
        focused_window: None,
        layer: None,
    }
}

impl Output {
    /// A new output, unnamed and without geometry.
    pub fn new(proxy: u64) -> (r: Output)
        ensures
            r == new_output(proxy),
    {
        Output {
            proxy,
            name: None,
            wl_global: None,
            wl_output: None,
            x: 0,
            y: 0,
            width: 0,
            height: 0,
            usable_x: 0,
            usable_y: 0,
            usable_width: 0,
            usable_height: 0,
            active_tag: 0,
            focused_window: None,
            layer: None,
        }
    }

    /// The area that windows may use.
    pub fn usable(&self) -> (r: (i32, i32, u32, u32))
        ensures
            r == usable_area(*self),
    {
        if self.usable_width > 0 || self.usable_height > 0 {
            (self.usable_x, self.usable_y, self.usable_width, self.usable_height)
        } else {
            (self.x, self.y, self.width, self.height)
        }
    }
}

impl Seat {
    /// A new seat with its pointer at the origin.
    pub fn new(proxy: u64) -> (r: Seat)
        ensures
            r == (Seat { proxy, pointer_x: 0, pointer_y: 0, pointer_window: None, layer: None }),
    {
        Seat { proxy, pointer_x: 0, pointer_y: 0, pointer_window: None, layer: None }
    }
}

/// Reassign tag ownership after output `removed` went and `remaining` outputs
/// are left: its tags go to the first output, and higher owners move down.
pub fn remap_tag_owners(owners: &mut [Option<usize>], removed: usize, remaining: usize)
    ensures
        final(owners)@ == Seq::new(
            old(owners)@.len(),
            |t: int| remapped_owner(old(owners)@[t], removed, remaining),
        ),
{
    let mut t: usize = 0;
    while t < owners.len()
        invariant
            t <= owners@.len() == old(owners)@.len(),
            forall|k: int|
                0 <= k < t ==> owners@[k] == remapped_owner(old(owners)@[k], removed, remaining),
            forall|k: int| t <= k < owners@.len() ==> owners@[k] == old(owners)@[k],
        decreases owners@.len() - t,
    {
        match owners[t] {
            None => {},
            Some(o) => {
                if remaining == 0 {
                    owners[t] = None;
                } else if o == removed {
                    owners[t] = Some(0);
                } else if o > removed {
                    owners[t] = Some(o - 1);
                }
            },
        }
        t += 1;
    }
}

/// Where a rectangle lands when it is brought into an area.
pub fn clamp_rect_to_area(
    x: i32,
    y: i32,
    width: u32,
    height: u32,
    area_x: i32,
    area_y: i32,
    area_width: u32,
    area_height: u32,
) -> (r: (i32, i32))
    requires
        clampable(width, height, (area_x, area_y, area_width, area_height)),
    ensures
        (r.0 as int, r.1 as int) == clamped_rect(
            x,
            y,
            width,
            height,
            (area_x, area_y, area_width, area_height),
        ),
{
    if area_width == 0 || area_height == 0 {
        return (area_x, area_y);
    }
    let slack_x: u32 = if width >= area_width {
        0
    } else {
        area_width - width
    };
    let slack_y: u32 = if height >= area_height {
        0
    } else {
        area_height - height
    };
    let max_x: i32 = area_x + slack_x as i32;
    let max_y: i32 = area_y + slack_y as i32;
    (clamp(x, area_x, max_x), clamp(y, area_y, max_y))
}

/// Whether a rectangle of the given size can be brought into an area with
/// coordinates of 32 bits.
pub fn can_clamp_rect(
    width: u32,
    height: u32,
    area_x: i32,
    area_y: i32,
    area_width: u32,
    area_height: u32,
) -> (r: bool)
    ensures
        r == clampable(width, height, (area_x, area_y, area_width, area_height)),
{
    if area_width == 0 || area_height == 0 {
        return true;
    }
    let slack_x: i64 = if width >= area_width {
        0
    } else {
        area_width as i64 - width as i64
    };
    let slack_y: i64 = if height >= area_height {
        0
    } else {
        area_height as i64 - height as i64
    };
    let limit: i64 = i32::MAX as i64;
    slack_x <= limit && area_x as i64 + slack_x <= limit && slack_y <= limit && area_y as i64
        + slack_y <= limit
}

/// `v`, brought into the range from `lo` to `hi`.
fn clamp(v: i32, lo: i32, hi: i32) -> (r: i32)
    ensures
        r == clamped(v as int, lo as int, hi as int),
{
    if v < lo {
        lo
    } else if v > hi {
        hi
    } else {
        v
    }
}

/// The tag that an output should show, given who owns each tag and the tags
/// that windows are on.
#[verifier::loop_isolation(false)]
pub fn choose_active_tag(
    owners: &[Option<usize>],
    current: usize,
    output_idx: usize,
    occupied_tags: &[usize],
) -> (r: Option<usize>)
    ensures
        ({
            let chosen = chosen_tag(owners@, current, output_idx, listed(occupied_tags@));
            &&& r is Some <==> chosen is Some
            &&& r is Some ==> r->0 == chosen->0
        }),
{
    if current < owners.len() && owners[current] == Some(output_idx) {
        return Some(current);
    }
    let ghost occupied = listed(occupied_tags@);
    let mut t: usize = 0;
    while t < owners.len()
        invariant
            t <= owners@.len(),
            occupied == listed(occupied_tags@),
            forall|k: int| 0 <= k < t ==> !(#[trigger] owned_and(owners@, output_idx, occupied)(k)),
        decreases owners@.len() - t,
    {
        if owners[t] == Some(output_idx) && is_listed(occupied_tags, t) {
            proof {
                assert(search::is_least(
                    owners@.len() as int,
                    owned_and(owners@, output_idx, occupied),
                    t as int,
                ));
                search::lemma_least_is(
                    owners@.len() as int,
                    owned_and(owners@, output_idx, occupied),
                    t as int,
                );
            }
            return Some(t);
        }
        t += 1;
    }
    proof {
        search::lemma_least_none(
            owners@.len() as int,
            owned_and(owners@, output_idx, occupied),
        );
    }
    let mut t: usize = 0;
    while t < owners.len()
        invariant
            t <= owners@.len(),
            forall|k: int| 0 <= k < t ==> !(#[trigger] owned(owners@, output_idx)(k)),
        decreases owners@.len() - t,
    {
        if owners[t] == Some(output_idx) {
            proof {
                assert(search::is_least(
                    owners@.len() as int,
                    owned(owners@, output_idx),
                    t as int,
                ));
                search::lemma_least_is(owners@.len() as int, owned(owners@, output_idx), t as int);
            }
            return Some(t);
        }
        t += 1;
    }
    proof {
        search::lemma_least_none(owners@.len() as int, owned(owners@, output_idx));
    }
    None
}

/// Whether a tag is on a list.
pub open spec fn listed(tags: Seq<usize>) -> spec_fn(int) -> bool {
    |t: int| exists|i: int| 0 <= i < tags.len() && #[trigger] tags[i] == t
}

/// Whether `tag` is on the list `tags`.
fn is_listed(tags: &[usize], tag: usize) -> (r: bool)
    ensures
        r == listed(tags@)(tag as int),
{
    let mut i: usize = 0;
    while i < tags.len()
        invariant
            i <= tags@.len(),
            forall|k: int| 0 <= k < i ==> tags@[k] != tag,
        decreases tags@.len() - i,
    {
        if tags[i] == tag {
            assert(tags@[i as int] == tag);
            return true;
        }
        i += 1;
    }
    false
}

impl State {
    /// A state without outputs, seats and windows, all tags unassigned.
    pub fn new(default_master_fraction: i64) -> (r: State)
        ensures
            r@ == fresh_state(default_master_fraction),
    {
        let mut tags: Vec<Tag> = Vec::new();
        let mut t: usize = 0;
        while t < NUM_TAGS
            invariant
                t <= NUM_TAGS,
                tags@ =~= Seq::new(
                    t as nat,
                    |t: int|
                        Tag { output: None, label: None, master_fraction: default_master_fraction },
                ),
            decreases NUM_TAGS - t,
        {
            tags.push(Tag::unassigned(default_master_fraction));
            t += 1;
        }
        State {
            outputs: Vec::new(),
            seats: Vec::new(),
            windows: Vec::new(),
            tags,
            focused_output: None,
            default_master_fraction,
            resize_mode: false,
            next_window_id: 1,
        }
    }

    /// Master fraction of `tag`'s layout (the default for a tag out of range).
    pub fn master_fraction(&self, tag: usize) -> (r: i64)
        ensures
            r == self@.fraction(tag),
    {
        if tag < self.tags.len() {
            self.tags[tag].master_fraction
        } else {
            self.default_master_fraction
        }
    }

    /// Set the master fraction of `tag`'s layout, clamped to the legal range.
    pub fn set_master_fraction(&mut self, tag: usize, fraction: i64)
        ensures
            final(self)@ == old(self)@.fraction_set(tag, fraction as int),
    {
        if tag < self.tags.len() {
            let legal: i64 = if fraction < MIN_FRACTION {
                MIN_FRACTION
            } else if fraction > MAX_FRACTION {
                MAX_FRACTION
            } else {
                fraction
            };
            self.tags[tag].master_fraction = legal;
        }
    }

    /// Master fraction of the active tag of `output_idx`.
    pub fn active_master_fraction(&self, output_idx: usize) -> (r: i64)
        ensures
            r == self@.active_fraction(output_idx),
    {
        if output_idx < self.outputs.len() {
            self.master_fraction(self.outputs[output_idx].active_tag)
        } else {
            self.default_master_fraction
        }
    }

    /// The index of the first window with identifier `id`.
    pub fn find_window_index(&self, id: u32) -> (r: Option<usize>)
        ensures
            r is Some <==> self@.window_index(id) is Some,
            r is Some ==> r->0 == self@.window_index(id)->0 && r->0 < self.windows@.len()
                && self.windows@[r->0 as int].id == id,
    {
        let mut i: usize = 0;
        while i < self.windows.len()
            invariant
                i <= self.windows@.len(),
                forall|k: int| 0 <= k < i ==> !(#[trigger] self@.has_id(id)(k)),
            decreases self.windows@.len() - i,
        {
            if self.windows[i].id == id {
                proof {
                    let n = self.windows@.len() as int;
                    assert(search::is_least(n, self@.has_id(id), i as int));
                    search::lemma_least_is(n, self@.has_id(id), i as int);
                }
                return Some(i);
            }
            i += 1;
        }
        proof {
            search::lemma_least_none(self.windows@.len() as int, self@.has_id(id));
        }
        None
    }

    /// The first window with identifier `id`.
    pub fn find_window(&self, id: u32) -> (r: Option<&Window>)
        ensures
            r is Some <==> self@.window_index(id) is Some,
            r is Some ==> *r->0 == self.windows@[self@.window_index(id)->0],
    {
        match self.find_window_index(id) {
            Some(i) => Some(&self.windows[i]),
            None => None,
        }
    }

    /// The first window with identifier `id`, to be changed in place.
    pub fn find_window_mut(&mut self, id: u32) -> (r: Option<&mut Window>)
        ensures
            r is Some <==> old(self)@.window_index(id) is Some,
            match r {
                Some(w) => {
                    let i = old(self)@.window_index(id)->0;
                    &&& *w == old(self).windows@[i]
                    &&& final(self)@ == old(self)@.with_window(i, *final(w))
                },
                None => final(self)@ == old(self)@,
            },
    {
        match self.find_window_index(id) {
            Some(i) => Some(&mut self.windows[i]),
            None => None,
        }
    }

    /// The identifier of the window with the protocol handle `proxy`.
    pub fn find_window_by_proxy(&self, proxy: u64) -> (r: Option<u32>)
        ensures
            r == self@.window_by_proxy(proxy),
    {
        let mut i: usize = 0;
        while i < self.windows.len()
            invariant
                i <= self.windows@.len(),
                forall|k: int| 0 <= k < i ==> !(#[trigger] self@.has_proxy(proxy)(k)),
            decreases self.windows@.len() - i,
        {
            if self.windows[i].proxy == proxy {
                proof {
                    let n = self.windows@.len() as int;
                    assert(search::is_least(n, self@.has_proxy(proxy), i as int));
                    search::lemma_least_is(n, self@.has_proxy(proxy), i as int);
                }
                return Some(self.windows[i].id);
            }
            i += 1;
        }
        proof {
            search::lemma_least_none(self.windows@.len() as int, self@.has_proxy(proxy));
        }
        None
    }

    /// Output index by name.
    pub fn find_output_by_name(&self, name: &str) -> (r: Option<usize>)
        ensures
            r is Some <==> self@.output_by_name(name@) is Some,
            r is Some ==> r->0 == self@.output_by_name(name@)->0 && r->0 < self.outputs@.len(),
    {
        let mut i: usize = 0;
        while i < self.outputs.len()
            invariant
                i <= self.outputs@.len(),
                forall|k: int| 0 <= k < i ==> !(#[trigger] self@.has_name(name@)(k)),
            decreases self.outputs@.len() - i,
        {
            if text::opt_same(&self.outputs[i].name, name) {
                proof {
                    let n = self.outputs@.len() as int;
                    assert(search::is_least(n, self@.has_name(name@), i as int));
                    search::lemma_least_is(n, self@.has_name(name@), i as int);
                }
                return Some(i);
            }
            i += 1;
        }
        proof {
            search::lemma_least_none(self.outputs@.len() as int, self@.has_name(name@));
        }
        None
    }

    /// The focused output index, or the first output (0) as fallback.
    pub fn active_output(&self) -> (r: Option<usize>)
        ensures
            r == self@.active_output(),
    {
        match self.focused_output {
            Some(o) => Some(o),
            None => if self.outputs.len() == 0 {
                None
            } else {
                Some(0)
            },
        }
    }

    /// The output owning a tag, if any.
    pub fn tag_owner(&self, tag: usize) -> (r: Option<usize>)
        ensures
            r == self@.owner(tag),
    {
        if tag < self.tags.len() {
            self.tags[tag].output
        } else {
            None
        }
    }

    /// The output a window is displayed on: the owner of its tag.
    pub fn window_output(&self, window: &Window) -> (r: Option<usize>)
        ensures
            r == self@.owner(window.tag),
    {
        self.tag_owner(window.tag)
    }

    /// Whether a window is visible: its tag is active on its owner.
    pub fn window_is_visible(&self, window: &Window) -> (r: bool)
        ensures
            r == self@.visible(*window),
    {
        match self.tag_owner(window.tag) {
            Some(o) => o < self.outputs.len() && self.outputs[o].active_tag == window.tag,
            None => false,
        }
    }

    /// Recompute the focused window of an output.
    pub fn refocus_output(&mut self, output_idx: usize)
        requires
            output_idx < old(self).outputs@.len(),
        ensures
            final(self)@ == old(self)@.refocused(output_idx as int),
    {
        let focused = self.outputs[output_idx].focused_window;
        let kept: bool = match focused {
            Some(id) => match self.find_window_index(id) {
                Some(i) => self.shown(output_idx, i),
                None => false,
            },
            None => false,
        };
        let new_focused: Option<u32> = if kept {
            focused
        } else {
            self.first_shown(output_idx)
        };
        self.outputs[output_idx].focused_window = new_focused;
    }

    /// Whether the window at index `i` is shown on an output.
    fn shown(&self, output_idx: usize, i: usize) -> (r: bool)
        requires
            output_idx < self.outputs@.len(),
            i < self.windows@.len(),
        ensures
            r == self@.shows(output_idx as int, self.windows@[i as int]),
    {
        self.tag_owner(self.windows[i].tag) == Some(output_idx) && self.windows[i].tag
            == self.outputs[output_idx].active_tag
    }

    /// The first window shown on an output.
    fn first_shown(&self, output_idx: usize) -> (r: Option<u32>)
        requires
            output_idx < self.outputs@.len(),
        ensures
            r == match search::least(
                self.windows@.len() as int,
                self@.shown_on(output_idx as int),
            ) {
                Some(i) => Some(self.windows@[i].id),
                None => None,
            },
    {
        let ghost n = self.windows@.len() as int;
        let ghost shown = self@.shown_on(output_idx as int);
        let mut i: usize = 0;
        while i < self.windows.len()
            invariant
                output_idx < self.outputs@.len(),
                i <= self.windows@.len(),
                n == self.windows@.len(),
                shown == self@.shown_on(output_idx as int),
                forall|k: int| 0 <= k < i ==> !(#[trigger] shown(k)),
            decreases self.windows@.len() - i,
        {
            if self.shown(output_idx, i) {
                proof {
                    assert(search::is_least(n, shown, i as int));
                    search::lemma_least_is(n, shown, i as int);
                }
                return Some(self.windows[i].id);
            }
            i += 1;
        }
        proof {
            search::lemma_least_none(n, shown);
        }
        None
    }

    /// Whether any window is on `tag`.
    fn is_occupied(&self, tag: usize) -> (r: bool)
        ensures
            r == (self@.occupied())(tag as int),
    {
        let mut i: usize = 0;
        while i < self.windows.len()
            invariant
                i <= self.windows@.len(),
                forall|k: int| 0 <= k < i ==> (#[trigger] self.windows@[k]).tag != tag,
            decreases self.windows@.len() - i,
        {
            if self.windows[i].tag == tag {
                assert(self@.windows[i as int].tag == tag);
                return true;
            }
            i += 1;
        }
        false
    }

    /// Un-fullscreen every window on `tag`.
    fn clear_fullscreen_on_tag(&mut self, tag: usize)
        ensures
            final(self)@ == old(self)@.without_fullscreen(tag),
    {
        let ghost target = old(self)@.without_fullscreen(tag);
        let mut i: usize = 0;
        while i < self.windows.len()
            invariant
                i <= self.windows@.len() == old(self).windows@.len(),
                target == old(self)@.without_fullscreen(tag),
                self@ == (StateModel { windows: self.windows@, ..old(self)@ }),
                forall|k: int| 0 <= k < i ==> self.windows@[k] == target.windows[k],
                forall|k: int| i <= k < self.windows@.len() ==> self.windows@[k] == old(
                    self,
                ).windows@[k],
            decreases self.windows@.len() - i,
        {
            if self.windows[i].tag == tag {
                self.windows[i].fullscreen = false;
            }
            i += 1;
        }
    }

    /// Unassign `tag` from `output_idx` if no window is on it anymore.
    fn delete_tag_if_empty(&mut self, output_idx: usize, tag: usize)
        ensures
            final(self)@ == old(self)@.collected(output_idx as int, tag),
    {
        if self.tag_owner(tag) == Some(output_idx) && !self.is_occupied(tag) {
            self.tags[tag].output = None;
        }
    }

    /// Make `tag` the active tag of `output_idx`, deleting the previously
    /// active tag if it is now empty.
    fn activate_tag(&mut self, output_idx: usize, tag: usize)
        requires
            output_idx < old(self).outputs@.len(),
        ensures
            final(self)@ == old(self)@.activated(output_idx as int, tag),
    {
        let left: usize = self.outputs[output_idx].active_tag;
        self.outputs[output_idx].active_tag = tag;
        self.clear_fullscreen_on_tag(left);
        if left != tag {
            self.delete_tag_if_empty(output_idx, left);
        }
        self.refocus_output(output_idx);
    }

    /// Focus a global tag from an output.
    ///
    /// * Unassigned tag -> assign it to `output_idx` and activate it there.
    /// * Tag owned by `output_idx` -> activate it there.
    /// * Tag owned by another output -> switch focus to that output and show
    ///   the tag there.
    pub fn focus_tag(&mut self, output_idx: usize, tag: usize)
        requires
            tag < NUM_TAGS && output_idx < old(self).outputs@.len() ==> tag < old(
                self,
            ).tags@.len() && (old(self)@.owner(tag) matches Some(o) ==> o < old(
                self,
            ).outputs@.len()),
        ensures
            final(self)@ == old(self)@.tag_focused(output_idx, tag),
    {
        if tag >= NUM_TAGS || output_idx >= self.outputs.len() {
            return ;
        }
        match self.tag_owner(tag) {
            None => {
                self.tags[tag].output = Some(output_idx);
                self.activate_tag(output_idx, tag);
            },
            Some(owner) => {
                if owner == output_idx {
                    self.activate_tag(output_idx, tag);
                } else {
                    self.focused_output = Some(owner);
                    self.activate_tag(owner, tag);
                }
            },
        }
    }

    /// Make `tag` the active tag of `output_idx`, clearing fullscreen on the
    /// windows left on the previously active tag (a fullscreen window is drawn
    /// over everything, which would merge two tags' windows).
    pub fn switch_active_tag(&mut self, output_idx: usize, tag: usize)
        ensures
            final(self)@ == old(self)@.tag_switched(output_idx, tag),
    {
        if output_idx >= self.outputs.len() {
            return ;
        }
        let left: usize = self.outputs[output_idx].active_tag;
        self.outputs[output_idx].active_tag = tag;
        if left != tag {
            self.clear_fullscreen_on_tag(left);
        }
        self.refocus_output(output_idx);
    }

    /// Move the focused window of an output to a global tag. An unassigned tag
    /// is assigned to the output first.
    pub fn send_focused_to_tag(&mut self, output_idx: usize, tag: usize)
        requires
            tag < NUM_TAGS && output_idx < old(self).outputs@.len() ==> tag < old(
                self,
            ).tags@.len(),
        ensures
            final(self)@ == old(self)@.focused_sent(output_idx, tag),
    {
        if tag >= NUM_TAGS || output_idx >= self.outputs.len() {
            return ;
        }
        if self.tag_owner(tag).is_none() {
            self.tags[tag].output = Some(output_idx);
        }
        if let Some(id) = self.outputs[output_idx].focused_window {
            if let Some(i) = self.find_window_index(id) {
                self.windows[i].tag = tag;
            }
        }
        self.refocus_output(output_idx);
    }

    /// The tag that an output should show, among those that it owns.
    pub fn best_tag_for_output(&self, output_idx: usize) -> (r: Option<usize>)
        ensures
            r is Some <==> self@.best_tag(output_idx) is Some,
            r is Some ==> r->0 == self@.best_tag(output_idx)->0,
    {
        if output_idx >= self.outputs.len() {
            return None;
        }
        let mut owners: Vec<Option<usize>> = Vec::new();
        let mut occupied: Vec<usize> = Vec::new();
        let mut t: usize = 0;
        while t < self.tags.len()
            invariant
                t <= self.tags@.len(),
                owners@ =~= self@.owners().take(t as int),
            decreases self.tags@.len() - t,
        {
            owners.push(self.tags[t].output);
            t += 1;
        }
        assert(owners@ =~= self@.owners());
        let mut i: usize = 0;
        while i < self.windows.len()
            invariant
                i <= self.windows@.len(),
                occupied@.len() == i,
                forall|k: int| 0 <= k < i ==> occupied@[k] == (#[trigger] self.windows@[k]).tag,
            decreases self.windows@.len() - i,
        {
            occupied.push(self.windows[i].tag);
            i += 1;
        }
        assert forall|t: int| #[trigger] listed(occupied@)(t) == (self@.occupied())(t) by {
            if listed(occupied@)(t) {
                let k = choose|k: int| 0 <= k < occupied@.len() && #[trigger] occupied@[k] == t;
                assert(self@.windows[k].tag == t);
            }
            if (self@.occupied())(t) {
                let k = choose|k: int|
                    0 <= k < self@.windows.len() && (#[trigger] self@.windows[k]).tag == t;
                assert(occupied@[k] == t);
            }
        }
        assert(listed(occupied@) =~= self@.occupied());
        choose_active_tag(
            owners.as_slice(),
            self.outputs[output_idx].active_tag,
            output_idx,
            occupied.as_slice(),
        )
    }

    /// The first unassigned tag.
    fn first_free_tag(&self) -> (r: Option<usize>)
        ensures
            r is Some <==> self@.free_tag() is Some,
            r is Some ==> r->0 == self@.free_tag()->0 && r->0 < self.tags@.len(),
    {
        let mut t: usize = 0;
        while t < self.tags.len()
            invariant
                t <= self.tags@.len(),
                forall|k: int| 0 <= k < t ==> !(#[trigger] (self@.unassigned())(k)),
            decreases self.tags@.len() - t,
        {
            if self.tags[t].output.is_none() {
                proof {
                    assert(search::is_least(
                        self.tags@.len() as int,
                        self@.unassigned(),
                        t as int,
                    ));
                    search::lemma_least_is(self.tags@.len() as int, self@.unassigned(), t as int);
                }
                return Some(t);
            }
            t += 1;
        }
        proof {
            search::lemma_least_none(self.tags@.len() as int, self@.unassigned());
        }
        None
    }

    /// Give every output a tag to show and a window to focus.
    fn normalize_outputs(&mut self)
        ensures
            final(self)@ == old(self)@.normalized(),
    {
        if self.outputs.len() == 0 {
            self.focused_output = None;
            return ;
        }
        let lost: bool = match self.focused_output {
            None => true,
            Some(f) => f >= self.outputs.len(),
        };
        if lost {
            self.focused_output = Some(0);
        }
        let ghost start = old(self)@.focus_checked();
        let mut o: usize = 0;
        while o < self.outputs.len()
            invariant
                o <= self.outputs@.len() == start.outputs.len(),
                self@ == start.repaired_up_to(o as int),
            decreases self.outputs@.len() - o,
        {
            if self.tag_owner(self.outputs[o].active_tag) != Some(o) {
                if let Some(tag) = self.best_tag_for_output(o) {
                    self.outputs[o].active_tag = tag;
                } else if let Some(tag) = self.first_free_tag() {
                    self.tags[tag].output = Some(o);
                    self.outputs[o].active_tag = tag;
                }
            }
            self.refocus_output(o);
            o += 1;
        }
    }

    /// Assign the first unassigned tag to an output (used on output creation).
    pub fn assign_initial_tag(&mut self, output_idx: usize)
        ensures
            final(self)@ == old(self)@.first_tag_assigned(output_idx),
    {
        let mut t: usize = 0;
        while t < self.tags.len()
            invariant
                t <= self.tags@.len(),
                *self == *old(self),
                forall|k: int| 0 <= k < t ==> (#[trigger] self.tags@[k]).output != Some(output_idx),
            decreases self.tags@.len() - t,
        {
            if self.tags[t].output == Some(output_idx) {
                assert(self@.tags[t as int].output == Some(output_idx));
                return ;
            }
            t += 1;
        }
        if let Some(tag) = self.first_free_tag() {
            self.tags[tag].output = Some(output_idx);
            if output_idx < self.outputs.len() {
                self.outputs[output_idx].active_tag = tag;
            }
        }
        self.normalize_outputs();
    }

    /// Bring every floating window into the area of its output.
    pub fn clamp_floating_windows(&mut self)
        requires
            old(self)@.floats_clampable(),
        ensures
            final(self)@ == old(self)@.floats_clamped(),
    {
        let ghost target = old(self)@.floats_clamped();
        let mut i: usize = 0;
        while i < self.windows.len()
            invariant
                i <= self.windows@.len() == old(self).windows@.len(),
                old(self)@.floats_clampable(),
                target == old(self)@.floats_clamped(),
                self@ == (StateModel { windows: self.windows@, ..old(self)@ }),
                forall|k: int| 0 <= k < i ==> self.windows@[k] == target.windows[k],
                forall|k: int| i <= k < self.windows@.len() ==> self.windows@[k] == old(
                    self,
                ).windows@[k],
            decreases self.windows@.len() - i,
        {
            let ghost before = old(self)@;
            assert(self.windows@[i as int] == before.windows[i as int]);
            if self.windows[i].floating {
                let o: usize = match self.tag_owner(self.windows[i].tag) {
                    Some(o) => o,
                    None => match self.focused_output {
                        Some(f) => f,
                        None => 0,
                    },
                };
                if o < self.outputs.len() {
                    let (x, y, width, height) = self.outputs[o].usable();
                    if width != 0 && height != 0 {
                        let (fx, fy) = clamp_rect_to_area(
                            self.windows[i].float_x,
                            self.windows[i].float_y,
                            self.windows[i].float_w,
                            self.windows[i].float_h,
                            x,
                            y,
                            width,
                            height,
                        );
                        self.windows[i].float_x = fx;
                        self.windows[i].float_y = fy;
                    }
                }
            }
            i += 1;
        }
    }

    /// Whether every floating window can be brought into the area of its output
    /// with coordinates of 32 bits.
    pub fn can_clamp_floating_windows(&self) -> (r: bool)
        ensures
            r == self@.floats_clampable(),
    {
        let mut i: usize = 0;
        while i < self.windows.len()
            invariant
                i <= self.windows@.len(),
                forall|k: int|
                    0 <= k < i && self@.windows[k].floating && self@.float_area(
                        self@.windows[k],
                    ) is Some ==> clampable(
                        (#[trigger] self@.windows[k]).float_w,
                        self@.windows[k].float_h,
                        self@.float_area(self@.windows[k])->0,
                    ),
            decreases self.windows@.len() - i,
        {
            if self.windows[i].floating {
                let o: usize = match self.tag_owner(self.windows[i].tag) {
                    Some(o) => o,
                    None => match self.focused_output {
                        Some(f) => f,
                        None => 0,
                    },
                };
                if o < self.outputs.len() {
                    let (x, y, width, height) = self.outputs[o].usable();
                    if !can_clamp_rect(
                        self.windows[i].float_w,
                        self.windows[i].float_h,
                        x,
                        y,
                        width,
                        height,
                    ) {
                        assert(!clampable(
                            self@.windows[i as int].float_w,
                            self@.windows[i as int].float_h,
                            self@.float_area(self@.windows[i as int])->0,
                        ));
                        return false;
                    }
                }
            }
            i += 1;
        }
        true
    }

    /// Revalidate active tags, focus and floating positions after output
    /// geometry or ownership changes.
    pub fn repair_outputs(&mut self)
        requires
            old(self)@.normalized().floats_clampable(),
        ensures
            final(self)@ == old(self)@.normalized().floats_clamped(),
    {
        self.normalize_outputs();
        self.clamp_floating_windows();
    }

    /// Repair the outputs if the floating windows can be brought inside them,
    /// and say whether they could; active tags and focus are revalidated either
    /// way.
    pub fn try_repair_outputs(&mut self) -> (r: bool)
        ensures
            r == old(self)@.normalized().floats_clampable(),
            r ==> final(self)@ == old(self)@.normalized().floats_clamped(),
            !r ==> final(self)@ == old(self)@.normalized(),
    {
        self.normalize_outputs();
        if self.can_clamp_floating_windows() {
            self.clamp_floating_windows();
            true
        } else {
            false
        }
    }

    /// Remove an output and migrate its tags to the first remaining output.
    pub fn remove_output(&mut self, idx: usize)
        requires
            idx < old(self).outputs@.len() ==> old(self)@.output_dropped(
                idx as int,
            ).normalized().floats_clampable(),
        ensures
            final(self)@ == old(self)@.output_removed(idx),
    {
        if idx >= self.outputs.len() {
            return ;
        }
        self.drop_output(idx);
        self.repair_outputs();
    }

    /// Take an output out and hand its tags to the first remaining output.
    pub(crate) fn drop_output(&mut self, idx: usize)
        requires
            idx < old(self).outputs@.len(),
        ensures
            final(self)@ == old(self)@.output_dropped(idx as int),
    {
        self.outputs.remove(idx);
        let remaining: usize = self.outputs.len();
        let mut owners: Vec<Option<usize>> = Vec::new();
        let mut t: usize = 0;
        while t < self.tags.len()
            invariant
                t <= self.tags@.len(),
                owners@ =~= self@.owners().take(t as int),
            decreases self.tags@.len() - t,
        {
            owners.push(self.tags[t].output);
            t += 1;
        }
        remap_tag_owners(owners.as_mut_slice(), idx, remaining);
        let ghost mid = self@;
        let ghost target = old(self)@.output_dropped(idx as int);
        let mut t: usize = 0;
        while t < self.tags.len()
            invariant
                t <= self.tags@.len() == target.tags.len(),
                owners@.len() == self.tags@.len(),
                self@ == (StateModel { tags: self.tags@, ..mid }),
                mid == (StateModel { outputs: target.outputs, ..old(self)@ }),
                target == old(self)@.output_dropped(idx as int),
                forall|k: int| 0 <= k < self.tags@.len() ==> owners@[k] == target.tags[k].output,
                forall|k: int| 0 <= k < t ==> self.tags@[k] == target.tags[k],
                forall|k: int| t <= k < self.tags@.len() ==> self.tags@[k] == old(self).tags@[k],
            decreases self.tags@.len() - t,
        {
            self.tags[t].output = owners[t];
            t += 1;
        }
        match self.focused_output {
            Some(f) => {
                if f == idx {
                    self.focused_output = if remaining == 0 {
                        None
                    } else {
                        Some(0)
                    };
                } else if f > idx {
                    self.focused_output = Some(f - 1);
                }
            },
            None => {},
        }
        assert(self@ =~= target);
    }
}

} // verus!
