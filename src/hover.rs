//! The hover controller: when to ask the language backend, which answers to
//! keep, and which popovers are on screen.
//!
//! Asynchronous work (timers, the backend call, reading diagnostics) is done
//! by the caller. `show_hover` decides whether a new request task starts and
//! hands back its id; the caller reports what happens to that task through
//! `show_diagnostic`, `hover_response` and `reveal_delay_elapsed`. Reports
//! for a task that is no longer the active one change nothing, and
//! `request_due` tells the caller, once the request delay is over, whether
//! the task is still the active one and its backend query still wanted. So a
//! newer trigger cancels an older task by replacing it.

use crate::diagnostic::{diagnostic_popover_at, popover_at, DiagnosticEntry, DiagnosticPopover};
use crate::render::{render_blocks, render_seq, HoverBlock, RenderedInfo};
use crate::style::HighlightStyle;
use std::ops::Range;
use vstd::prelude::*;

verus! {

/// How long the pointer must rest before an info popover may appear.
pub const HOVER_DELAY_MILLIS: u64 = 350;

/// How long the pointer must rest before the backend is asked.
pub const HOVER_REQUEST_DELAY_MILLIS: u64 = 200;

/// The backend's answer to a hover request.
#[derive(Debug)]
pub struct HoverResult {
    pub contents: Vec<HoverBlock>,
    /// The symbol's range in the document, where the backend gave one.
    pub range: Option<Range<usize>>,
}

/// The info popover: hover contents for the symbol over `symbol_range`.
#[derive(Debug)]
pub struct InfoPopover {
    pub symbol_range: Range<usize>,
    pub blocks: Vec<HoverBlock>,
    /// The rendering of `blocks`, kept until the theme changes.
    pub rendered_content: Option<RenderedInfo>,
}

/// The request task that is currently active.
#[derive(Debug)]
pub struct HoverTask {
    pub id: u64,
    /// The document offset that triggered it.
    pub anchor: usize,
    /// Triggered from the keyboard: no delays.
    pub immediate: bool,
    pub delay_elapsed: bool,
    /// A backend answer that waits for the delay to elapse.
    pub response: Option<Option<HoverResult>>,
    /// Whether its answer has been shown.
    pub revealed: bool,
}

/// The hover state of one editor.
#[derive(Debug)]
pub struct HoverState {
    pub info_popover: Option<InfoPopover>,
    pub diagnostic_popover: Option<DiagnosticPopover>,
    pub triggered_from: Option<usize>,
    pub info_task: Option<HoverTask>,
    /// The id of the most recently started task.
    pub task_counter: u64,
}

/// A request task to run: wait `request_delay_millis`, ask the backend about
/// `anchor`, and report back under `task_id`; report the end of
/// `reveal_delay_millis`, counted from now, unless it is zero.
#[derive(Clone, Copy, Debug, PartialEq, Eq, Structural)]
pub struct HoverRequest {
    pub task_id: u64,
    pub anchor: usize,
    pub request_delay_millis: u64,
    pub reveal_delay_millis: u64,
}

/// What the editor must do to the background highlight of the hovered symbol.
#[derive(Clone, Copy, Debug, PartialEq, Eq, Structural)]
pub enum HoverEffect {
    Nothing,
    HighlightSymbol(usize, usize),
    ClearHighlight,
}

/// Which popover to draw.
#[derive(Clone, Copy, Debug, PartialEq, Eq, Structural)]
pub enum PopoverKind {
    Diagnostic,
    Info,
}

pub open spec fn next_task_id(c: u64) -> u64 {
    if c == u64::MAX { 0 } else { (c + 1) as u64 }
}

/// The info popover for a backend answer; none for an empty or missing one.
pub open spec fn popover_for(result: Option<HoverResult>, anchor: usize) -> Option<InfoPopover> {
    match result {
        Some(r) => if r.contents@.len() > 0 {
            Some(
                InfoPopover {
                    symbol_range: match r.range {
                        Some(x) => x,
                        None => Range { start: anchor, end: anchor },
                    },
                    blocks: r.contents,
                    rendered_content: None,
                },
            )
        } else {
            None
        },
        None => None,
    }
}

pub open spec fn effect_for(p: Option<InfoPopover>) -> HoverEffect {
    match p {
        Some(q) => HoverEffect::HighlightSymbol(q.symbol_range.start, q.symbol_range.end),
        None => HoverEffect::ClearHighlight,
    }
}

/// Whether `c` is the rendering of `blocks` for theme `theme_id`.
pub open spec fn is_rendering(
    c: RenderedInfo,
    theme_id: usize,
    blocks: Seq<HoverBlock>,
    table: Seq<Option<Vec<(Range<usize>, HighlightStyle)>>>,
) -> bool {
    &&& c.theme_id == theme_id
    &&& c.text@ == render_seq(blocks, table).text
    &&& c.highlights@ == render_seq(blocks, table).highlights
    &&& c.link_ranges@ == render_seq(blocks, table).link_ranges
    &&& c.link_urls@ == render_seq(blocks, table).link_urls
}

impl HoverState {
    /// The active task has the latest id; until its answer is shown no info
    /// popover is up, and only a keyboard task or an elapsed delay shows it.
    pub open spec fn wf(&self) -> bool {
        match self.info_task {
            Some(t) => {
                &&& t.id == self.task_counter
                &&& !t.revealed ==> self.info_popover is None
                &&& t.revealed ==> t.immediate || t.delay_elapsed
                &&& t.revealed ==> t.response is None
            },
            None => true,
        }
    }

    /// The document range that carries the hovered symbol's background
    /// highlight: the symbol of the info popover that is up, if any.
    pub open spec fn symbol_highlight(&self) -> Option<(usize, usize)> {
        match self.info_popover {
            Some(p) => Some((p.symbol_range.start, p.symbol_range.end)),
            None => None,
        }
    }

    pub open spec fn is_visible(&self) -> bool {
        self.info_popover is Some || self.diagnostic_popover is Some
    }

    /// The pointer rests on the symbol of the info popover that is up.
    pub open spec fn stable_hover(&self, offset: usize, immediate: bool) -> bool {
        &&& !immediate
        &&& self.info_popover matches Some(p)
        &&& p.symbol_range.start <= offset
        &&& offset < p.symbol_range.end
    }

    /// Whether a trigger at `offset` starts a new request task.
    pub open spec fn starts_request(&self, offset: usize, immediate: bool, renaming: bool) -> bool {
        !renaming && !self.stable_hover(offset, immediate) && self.triggered_from != Some(offset)
    }

    /// The state after a trigger at `offset`.
    pub open spec fn after_show(self, offset: usize, immediate: bool, renaming: bool) -> HoverState {
        if renaming || self.stable_hover(offset, immediate) {
            self
        } else if self.triggered_from == Some(offset) {
            HoverState { info_popover: None, diagnostic_popover: None, ..self }
        } else {
            let id = next_task_id(self.task_counter);
            HoverState {
                info_popover: None,
                diagnostic_popover: None,
                triggered_from: Some(offset),
                info_task: Some(
                    HoverTask {
                        id,
                        anchor: offset,
                        immediate,
                        delay_elapsed: false,
                        response: None,
                        revealed: false,
                    },
                ),
                task_counter: id,
            }
        }
    }

    /// The request that a trigger which starts one hands back.
    pub open spec fn request_for(self, offset: usize, immediate: bool) -> HoverRequest {
        HoverRequest {
            task_id: next_task_id(self.task_counter),
            anchor: offset,
            request_delay_millis: if immediate { 0 } else { HOVER_REQUEST_DELAY_MILLIS },
            reveal_delay_millis: if immediate { 0 } else { HOVER_DELAY_MILLIS },
        }
    }

    /// The state after a dismissal.
    pub open spec fn dismissed(self) -> HoverState {
        HoverState {
            info_popover: None,
            diagnostic_popover: None,
            triggered_from: None,
            info_task: None,
            ..self
        }
    }

    pub open spec fn is_active(&self, id: u64) -> bool {
        self.info_task matches Some(t) && t.id == id
    }

    /// The state once task `id` has looked up the diagnostics at its anchor.
    pub open spec fn with_diagnostic(self, id: u64, entries: Seq<DiagnosticEntry>) -> HoverState {
        match self.info_task {
            Some(t) => if t.id == id {
                HoverState { diagnostic_popover: popover_at(t.anchor, entries), ..self }
            } else {
                self
            },
            None => self,
        }
    }

    /// The state and effect once task `id` has the backend's answer.
    pub open spec fn after_response(self, id: u64, result: Option<HoverResult>) -> (HoverState, HoverEffect) {
        match self.info_task {
            Some(t) => if t.id == id && !t.revealed && t.response is None {
                if t.immediate || t.delay_elapsed {
                    let p = popover_for(result, t.anchor);
                    (
                        HoverState { info_popover: p, info_task: Some(HoverTask { revealed: true, ..t }), ..self },
                        effect_for(p),
                    )
                } else {
                    (
                        HoverState { info_task: Some(HoverTask { response: Some(result), ..t }), ..self },
                        HoverEffect::Nothing,
                    )
                }
            } else {
                (self, HoverEffect::Nothing)
            },
            None => (self, HoverEffect::Nothing),
        }
    }

    /// The state and effect once the reveal delay of task `id` has elapsed.
    pub open spec fn after_delay(self, id: u64) -> (HoverState, HoverEffect) {
        match self.info_task {
            Some(t) => if t.id == id && !t.delay_elapsed {
                match t.response {
                    Some(result) => {
                        let p = popover_for(result, t.anchor);
                        (
                            HoverState {
                                info_popover: p,
                                info_task: Some(
                                    HoverTask { delay_elapsed: true, response: None, revealed: true, ..t },
                                ),
                                ..self
                            },
                            effect_for(p),
                        )
                    },
                    None => (
                        HoverState { info_task: Some(HoverTask { delay_elapsed: true, ..t }), ..self },
                        HoverEffect::Nothing,
                    ),
                }
            } else {
                (self, HoverEffect::Nothing)
            },
            None => (self, HoverEffect::Nothing),
        }
    }

    /// Where popovers are placed: the diagnostic's start, else the symbol's.
    pub open spec fn anchor_of(&self) -> Option<usize> {
        match self.diagnostic_popover {
            Some(d) => Some(d.local_diagnostic.range.start),
            None => match self.info_popover {
                Some(p) => Some(p.symbol_range.start),
                None => None,
            },
        }
    }

    /// The popovers to draw, the diagnostic one first.
    pub open spec fn kinds(&self) -> Seq<PopoverKind> {
        let d: Seq<PopoverKind> = if self.diagnostic_popover is Some { seq![PopoverKind::Diagnostic] } else { seq![] };
        if self.info_popover is Some { d.push(PopoverKind::Info) } else { d }
    }

    pub fn new() -> (r: HoverState)
        ensures
            r.wf(),
            r.info_popover is None,
            r.diagnostic_popover is None,
            r.triggered_from is None,
            r.info_task is None,
            r.task_counter == 0,
    {
        HoverState {
            info_popover: None,
            diagnostic_popover: None,
            triggered_from: None,
            info_task: None,
            task_counter: 0,
        }
    }

    /// The range the editor highlights in the background for the hovered
    /// symbol; `None` when no highlight is to be shown.
    pub fn highlighted_symbol(&self) -> (r: Option<(usize, usize)>)
        ensures
            r == self.symbol_highlight(),
    {
        match &self.info_popover {
            Some(p) => Some((p.symbol_range.start, p.symbol_range.end)),
            None => None,
        }
    }

    /// Whether a popover is up.
    pub fn visible(&self) -> (r: bool)
        ensures
            r == self.is_visible(),
    {
        self.info_popover.is_some() || self.diagnostic_popover.is_some()
    }

    /// The document offset that the popovers are placed at.
    pub fn popover_anchor(&self) -> (r: Option<usize>)
        ensures
            r == self.anchor_of(),
    {
        match &self.diagnostic_popover {
            Some(d) => Some(d.local_diagnostic.range.start),
            None => match &self.info_popover {
                Some(p) => Some(p.symbol_range.start),
                None => None,
            },
        }
    }

    /// The popovers to draw when the anchor's row, `anchor_row`, is among
    /// `visible_rows`: the diagnostic popover first. Draws the info popover's
    /// contents for theme `theme_id` where they are not drawn yet.
    pub fn render(
        &mut self,
        anchor_row: u32,
        visible_rows: Range<u32>,
        theme_id: usize,
        code_highlights: &Vec<Option<Vec<(Range<usize>, HighlightStyle)>>>,
    ) -> (r: Option<Vec<PopoverKind>>)
        ensures
            r is None <==> !old(self).is_visible() || !(visible_rows.start <= anchor_row
                && anchor_row < visible_rows.end),
            r matches Some(v) ==> v@ == old(self).kinds(),
            final(self).diagnostic_popover == old(self).diagnostic_popover,
            final(self).triggered_from == old(self).triggered_from,
            final(self).info_task == old(self).info_task,
            final(self).task_counter == old(self).task_counter,
            final(self).info_popover is Some == old(self).info_popover is Some,
            r is None ==> final(self).info_popover == old(self).info_popover,
            r is Some ==> info_rendered(old(self).info_popover, final(self).info_popover, theme_id, code_highlights@),
    {
        if !self.visible() || !(visible_rows.start <= anchor_row && anchor_row < visible_rows.end) {
            return None;
        }
        let mut kinds: Vec<PopoverKind> = Vec::new();
        if self.diagnostic_popover.is_some() {
            kinds.push(PopoverKind::Diagnostic);
        }
        match self.info_popover.take() {
            Some(mut p) => {
                p.render(theme_id, code_highlights);
                self.info_popover = Some(p);
                kinds.push(PopoverKind::Info);
            },
            None => {},
        }
        assert(kinds@ =~= old(self).kinds());
        Some(kinds)
    }
}

/// The info popover before and after drawing its contents.
pub open spec fn info_rendered(
    before: Option<InfoPopover>,
    after: Option<InfoPopover>,
    theme_id: usize,
    table: Seq<Option<Vec<(Range<usize>, HighlightStyle)>>>,
) -> bool {
    match before {
        Some(p) => match after {
            Some(q) => p.renders_to(q, theme_id, table),
            None => false,
        },
        None => after is None,
    }
}

impl InfoPopover {
    /// A rendering for theme `theme_id` is kept.
    pub open spec fn has_rendering_for(self, theme_id: usize) -> bool {
        self.rendered_content matches Some(c) && c.theme_id == theme_id
    }

    /// `q` is this popover with its contents drawn for theme `theme_id`:
    /// a kept rendering for that theme stays, else a new one is made.
    pub open spec fn renders_to(
        self,
        q: InfoPopover,
        theme_id: usize,
        table: Seq<Option<Vec<(Range<usize>, HighlightStyle)>>>,
    ) -> bool {
        &&& q.symbol_range == self.symbol_range
        &&& q.blocks == self.blocks
        &&& self.has_rendering_for(theme_id) ==> q.rendered_content == self.rendered_content
        &&& !self.has_rendering_for(theme_id) ==> (q.rendered_content matches Some(c) && is_rendering(
            c,
            theme_id,
            self.blocks@,
            table,
        ))
    }

    /// Renders the popover's contents for theme `theme_id`, unless a rendering
    /// for that theme is kept already.
    pub fn render(
        &mut self,
        theme_id: usize,
        code_highlights: &Vec<Option<Vec<(Range<usize>, HighlightStyle)>>>,
    )
        ensures
            final(self).symbol_range == old(self).symbol_range,
            final(self).blocks == old(self).blocks,
            old(self).renders_to(*final(self), theme_id, code_highlights@),
    {
        let fresh = match &self.rendered_content {
            Some(c) => c.theme_id == theme_id,
            None => false,
        };
        if !fresh {
            self.rendered_content = Some(render_blocks(theme_id, self.blocks.as_slice(), code_highlights));
        }
    }

    /// The kept rendering of the contents, if any.
    pub fn rendered(&self) -> (r: Option<&RenderedInfo>)
        ensures
            r matches Some(c) ==> self.rendered_content == Some(*c),
            r is None <==> self.rendered_content is None,
    {
        match &self.rendered_content {
            Some(c) => Some(c),
            None => None,
        }
    }
}

fn popover_from(result: Option<HoverResult>, anchor: usize) -> (r: Option<InfoPopover>)
    ensures
        r == popover_for(result, anchor),
{
    match result {
        Some(HoverResult { contents, range }) => {
            if contents.len() > 0 {
                let symbol_range = match range {
                    Some(x) => x,
                    None => Range { start: anchor, end: anchor },
                };
                Some(InfoPopover { symbol_range, blocks: contents, rendered_content: None })
            } else {
                None
            }
        },
        None => None,
    }
}

fn effect_from(p: &Option<InfoPopover>) -> (r: HoverEffect)
    ensures
        r == effect_for(*p),
{
    match p {
        Some(q) => HoverEffect::HighlightSymbol(q.symbol_range.start, q.symbol_range.end),
        None => HoverEffect::ClearHighlight,
    }
}

/// Handles a hover trigger at document offset `offset`: from the keyboard
/// when `immediate`, else from the pointer. Nothing happens while a rename is
/// in progress, or when the pointer rests on the symbol of the info popover
/// that is up. Otherwise the popovers go, and unless `offset` is where the
/// last request was made, a new request task replaces the active one and is
/// handed back.
pub fn show_hover(state: &mut HoverState, offset: usize, immediate: bool, renaming: bool) -> (r: Option<HoverRequest>)
    requires
        old(state).wf(),
    ensures
        final(state).wf(),
        *final(state) == old(state).after_show(offset, immediate, renaming),
        r is Some <==> old(state).starts_request(offset, immediate, renaming),
        r matches Some(q) ==> q == old(state).request_for(offset, immediate),
        !renaming && !old(state).stable_hover(offset, immediate) ==> final(state).symbol_highlight() is None
            && !final(state).is_visible(),
{
    if renaming {
        return None;
    }
    if !immediate {
        match &state.info_popover {
            Some(p) => {
                if p.symbol_range.start <= offset && offset < p.symbol_range.end {
                    return None;
                }
            },
            None => {},
        }
    }
    state.info_popover = None;
    state.diagnostic_popover = None;
    match state.triggered_from {
        Some(t) => {
            if t == offset {
                return None;
            }
        },
        None => {},
    }
    let id = if state.task_counter == u64::MAX { 0 } else { state.task_counter + 1 };
    state.task_counter = id;
    state.triggered_from = Some(offset);
    state.info_task = Some(
        HoverTask { id, anchor: offset, immediate, delay_elapsed: false, response: None, revealed: false },
    );
    Some(
        HoverRequest {
            task_id: id,
            anchor: offset,
            request_delay_millis: if immediate { 0 } else { HOVER_REQUEST_DELAY_MILLIS },
            reveal_delay_millis: if immediate { 0 } else { HOVER_DELAY_MILLIS },
        },
    )
}

/// The hover action: shows hover information at the newest selection head,
/// `head`, at once.
pub fn hover(state: &mut HoverState, head: usize, renaming: bool) -> (r: Option<HoverRequest>)
    requires
        old(state).wf(),
    ensures
        final(state).wf(),
        *final(state) == old(state).after_show(head, true, renaming),
        r is Some <==> old(state).starts_request(head, true, renaming),
        r matches Some(q) ==> q == old(state).request_for(head, true),
{
    show_hover(state, head, true, renaming)
}

/// Pointer movement: with hover popovers enabled, shows hover information at
/// `point`, or hides it when the pointer is over no text.
pub fn hover_at(state: &mut HoverState, point: Option<usize>, enabled: bool, renaming: bool) -> (r: Option<
    HoverRequest,
>)
    requires
        old(state).wf(),
    ensures
        final(state).wf(),
        !enabled ==> *final(state) == *old(state) && r is None,
        enabled && point is None ==> *final(state) == old(state).dismissed() && r is None,
        enabled ==> (point matches Some(p) ==> {
            &&& *final(state) == old(state).after_show(p, false, renaming)
            &&& r is Some <==> old(state).starts_request(p, false, renaming)
            &&& r matches Some(q) ==> q == old(state).request_for(p, false)
        }),
{
    if enabled {
        match point {
            Some(p) => show_hover(state, p, false, renaming),
            None => {
                hide_hover(state);
                None
            },
        }
    } else {
        None
    }
}

/// Hides the popovers and forgets the active task and the last trigger
/// location. Returns whether a popover was up.
pub fn hide_hover(state: &mut HoverState) -> (r: bool)
    requires
        old(state).wf(),
    ensures
        final(state).wf(),
        *final(state) == old(state).dismissed(),
        r == old(state).is_visible(),
        final(state).symbol_highlight() is None,
{
    let had_info = state.info_popover.take().is_some();
    let had_diagnostic = state.diagnostic_popover.take().is_some();
    let did_hide = had_info || had_diagnostic;
    state.info_task = None;
    state.triggered_from = None;
    did_hide
}

/// Task `task_id` reports the document's diagnostics: the most specific one
/// at its anchor is shown at once. Returns whether the task is still active;
/// for any other task nothing changes.
pub fn show_diagnostic(state: &mut HoverState, task_id: u64, entries: &Vec<DiagnosticEntry>) -> (r: bool)
    requires
        old(state).wf(),
    ensures
        final(state).wf(),
        *final(state) == old(state).with_diagnostic(task_id, entries@),
        r == old(state).is_active(task_id),
{
    let anchor = match &state.info_task {
        Some(t) => {
            if t.id != task_id {
                return false;
            }
            t.anchor
        },
        None => {
            return false;
        },
    };
    state.diagnostic_popover = diagnostic_popover_at(anchor, entries);
    true
}

/// Whether task `task_id` is still the active one, so that its backend
/// query is still wanted; a task that a newer trigger replaced, or that a
/// dismissal dropped, must not query.
pub fn request_due(state: &HoverState, task_id: u64) -> (r: bool)
    ensures
        r == state.is_active(task_id),
{
    match &state.info_task {
        Some(t) => t.id == task_id,
        None => false,
    }
}

/// Task `task_id` reports the backend's answer (`None` when there was none,
/// or the request failed). A keyboard task, or one whose delay has elapsed,
/// shows it at once; another keeps it until its delay elapses. Answers of
/// tasks that are no longer active are dropped.
pub fn hover_response(state: &mut HoverState, task_id: u64, result: Option<HoverResult>) -> (r: HoverEffect)
    requires
        old(state).wf(),
    ensures
        final(state).wf(),
        (*final(state), r) == old(state).after_response(task_id, result),
{
    let mut task = match state.info_task.take() {
        Some(t) => t,
        None => {
            return HoverEffect::Nothing;
        },
    };
    if task.id != task_id || task.revealed || task.response.is_some() {
        state.info_task = Some(task);
        return HoverEffect::Nothing;
    }
    if task.immediate || task.delay_elapsed {
        let p = popover_from(result, task.anchor);
        let effect = effect_from(&p);
        task.revealed = true;
        state.info_popover = p;
        state.info_task = Some(task);
        effect
    } else {
        task.response = Some(result);
        state.info_task = Some(task);
        HoverEffect::Nothing
    }
}

/// The reveal delay of task `task_id` has elapsed: an answer that waited for
/// it is shown. Nothing changes for a task that is no longer active.
pub fn reveal_delay_elapsed(state: &mut HoverState, task_id: u64) -> (r: HoverEffect)
    requires
        old(state).wf(),
    ensures
        final(state).wf(),
        (*final(state), r) == old(state).after_delay(task_id),
{
    let mut task = match state.info_task.take() {
        Some(t) => t,
        None => {
            return HoverEffect::Nothing;
        },
    };
    if task.id != task_id || task.delay_elapsed {
        state.info_task = Some(task);
        return HoverEffect::Nothing;
    }
    task.delay_elapsed = true;
    match task.response.take() {
        Some(result) => {
            let p = popover_from(result, task.anchor);
            let effect = effect_from(&p);
            task.revealed = true;
            state.info_popover = p;
            state.info_task = Some(task);
            effect
        },
        None => {
            state.info_task = Some(task);
            HoverEffect::Nothing
        },
    }
}

/// Two triggers at one location, with nothing between them that forgets the
/// recorded location (only a dismissal does), start at most one request.
pub proof fn lemma_one_request_per_location(
    s: HoverState,
    mid: HoverState,
    offset: usize,
    immediate1: bool,
    renaming1: bool,
    immediate2: bool,
    renaming2: bool,
)
    requires
        mid.triggered_from == s.after_show(offset, immediate1, renaming1).triggered_from,
    ensures
        !(s.starts_request(offset, immediate1, renaming1) && mid.starts_request(offset, immediate2, renaming2)),
{
}

/// Task reports keep the recorded trigger location.
pub proof fn lemma_reports_keep_location(
    s: HoverState,
    id: u64,
    entries: Seq<DiagnosticEntry>,
    result: Option<HoverResult>,
)
    ensures
        s.with_diagnostic(id, entries).triggered_from == s.triggered_from,
        s.after_response(id, result).0.triggered_from == s.triggered_from,
        s.after_delay(id).0.triggered_from == s.triggered_from,
{
}

/// While the active task is a pointer task whose delay has not elapsed, no
/// backend answer brings up an info popover.
pub proof fn lemma_no_reveal_before_delay(s: HoverState, id: u64, result: Option<HoverResult>)
    requires
        s.wf(),
        s.info_task matches Some(t) && !t.immediate && !t.delay_elapsed,
    ensures
        s.after_response(id, result).0.info_popover is None,
{
}

/// A pointer trigger's answer is shown when both it and the delay are in,
/// in either order, and not before.
pub proof fn lemma_pointer_reveal(s: HoverState, offset: usize, renaming: bool, result: Option<HoverResult>)
    requires
        s.starts_request(offset, false, renaming),
    ensures
        ({
            let s1 = s.after_show(offset, false, renaming);
            let id = s1.task_counter;
            &&& s1.after_response(id, result).0.info_popover is None
            &&& s1.after_delay(id).0.info_popover is None
            &&& s1.after_response(id, result).0.after_delay(id).0.info_popover == popover_for(result, offset)
            &&& s1.after_delay(id).0.after_response(id, result).0.info_popover == popover_for(result, offset)
        }),
{
}

/// A keyboard trigger's answer is shown as soon as it comes in.
pub proof fn lemma_keyboard_reveal(s: HoverState, offset: usize, renaming: bool, result: Option<HoverResult>)
    requires
        s.starts_request(offset, true, renaming),
    ensures
        ({
            let s1 = s.after_show(offset, true, renaming);
            s1.after_response(s1.task_counter, result).0.info_popover == popover_for(result, offset)
        }),
{
}

/// Reports from a task that is not the active one change nothing.
pub proof fn lemma_stale_reports_ignored(
    s: HoverState,
    id: u64,
    entries: Seq<DiagnosticEntry>,
    result: Option<HoverResult>,
)
    requires
        !s.is_active(id),
    ensures
        s.after_response(id, result) == (s, HoverEffect::Nothing),
        s.after_delay(id) == (s, HoverEffect::Nothing),
        s.with_diagnostic(id, entries) == s,
{
}

/// A trigger that starts a request leaves the task that was active stale, so
/// nothing it reports afterwards is shown.
pub proof fn lemma_new_request_supersedes(s: HoverState, offset: usize, immediate: bool, renaming: bool)
    requires
        s.wf(),
        s.starts_request(offset, immediate, renaming),
        s.info_task is Some,
    ensures
        !s.after_show(offset, immediate, renaming).is_active(s.info_task->0.id),
        s.after_show(offset, immediate, renaming).is_active(next_task_id(s.task_counter)),
{
}

/// When a diagnostic covers the trigger location, a popover is up as soon as
/// the new task has looked up diagnostics, without any backend answer.
pub proof fn lemma_diagnostic_before_answer(
    s: HoverState,
    offset: usize,
    immediate: bool,
    renaming: bool,
    entries: Seq<DiagnosticEntry>,
)
    requires
        s.starts_request(offset, immediate, renaming),
        exists|j: int| 0 <= j < entries.len() && crate::diagnostic::covers(#[trigger] entries[j], offset),
    ensures
        ({
            let s1 = s.after_show(offset, immediate, renaming);
            s1.with_diagnostic(s1.task_counter, entries).is_visible()
        }),
{
    crate::diagnostic::lemma_most_specific(offset, entries);
}

/// Dismissal clears both popovers, the symbol highlight, the active task and
/// the recorded trigger location; dismissing again changes nothing.
pub proof fn lemma_dismiss(s: HoverState)
    ensures
        s.dismissed().info_popover is None,
        s.dismissed().diagnostic_popover is None,
        s.dismissed().info_task is None,
        s.dismissed().triggered_from is None,
        s.dismissed().symbol_highlight() is None,
        s.dismissed().dismissed() == s.dismissed(),
{
}

} // verus!
