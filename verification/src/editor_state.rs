//! The editor's small decision rules: inspection cycling, selection edits,
//! import and save decisions, modal confirmation, inspector section sync and
//! viewport layout.
use vstd::prelude::*;
use std::collections::HashSet;
use crate::sockets::{ActorPart, contains_chars, find_chars, lowercase, string_chars, to_lowercase};

verus! {

broadcast use vstd::std_specs::hash::group_hash_axioms;

/// The inspector's working mode.
#[derive(Clone, Copy, Debug, PartialEq, Eq, Structural)]
pub enum EditorMode {
    Slicing,
    Sockets,
}

/// How a lasso or click edits the triangle selection.
#[derive(Clone, Copy, Debug, PartialEq, Eq, Structural)]
pub enum LassoSelectionMode {
    Add,
    Subtract,
}

/// What the editor is busy with, shown in the status bar.
#[derive(Clone, Copy, Debug, PartialEq, Eq, Structural)]
pub enum EditorStatus {
    Ready,
    Saving,
    Loading,
    Processing,
}

// ---------------------------------------------------------------------------
// Inspection
// ---------------------------------------------------------------------------

/// The part isolated after pressing the inspection key:
/// none, head, body, engine, then none again.
pub open spec fn spec_next_isolated(current: Option<ActorPart>) -> Option<ActorPart> {
    match current {
        None => Some(ActorPart::Head),
        Some(ActorPart::Head) => Some(ActorPart::Body),
        Some(ActorPart::Body) => Some(ActorPart::Engine),
        Some(ActorPart::Engine) => None,
    }
}

/// Next part in the inspection cycle.
pub fn next_isolated_part(current: Option<ActorPart>) -> (next: Option<ActorPart>)
    ensures
        next == spec_next_isolated(current),
{
    match current {
        None => Some(ActorPart::Head),
        Some(ActorPart::Head) => Some(ActorPart::Body),
        Some(ActorPart::Body) => Some(ActorPart::Engine),
        Some(ActorPart::Engine) => None,
    }
}

/// Four presses of the inspection key bring the view back to where it was,
/// and no fewer do.
pub proof fn law_inspection_cycle(p: Option<ActorPart>)
    ensures
        spec_next_isolated(spec_next_isolated(spec_next_isolated(spec_next_isolated(p)))) == p,
        spec_next_isolated(p) != p,
        spec_next_isolated(spec_next_isolated(p)) != p,
        spec_next_isolated(spec_next_isolated(spec_next_isolated(p))) != p,
{
}

/// The inspection key walks the parts in order: from nothing to the head,
/// from the head to the body, from the body to the engine, and from the
/// engine back to nothing; no other press gives these results.
pub proof fn law_inspection_order(p: Option<ActorPart>)
    ensures
        spec_next_isolated(p) == Some(ActorPart::Head) <==> p is None,
        spec_next_isolated(p) == Some(ActorPart::Body) <==> p == Some(ActorPart::Head),
        spec_next_isolated(p) == Some(ActorPart::Engine) <==> p == Some(ActorPart::Body),
        spec_next_isolated(p) is None <==> p == Some(ActorPart::Engine),
{
}

// ---------------------------------------------------------------------------
// Selection
// ---------------------------------------------------------------------------

/// The part whose triangles a lasso selects when it catches several parts:
/// the head if caught, else the body if caught, else the engine.
pub open spec fn spec_priority_part(parts: Seq<ActorPart>) -> Option<ActorPart> {
    if parts.len() == 0 {
        None
    } else if parts.contains(ActorPart::Head) {
        Some(ActorPart::Head)
    } else if parts.contains(ActorPart::Body) {
        Some(ActorPart::Body)
    } else {
        Some(ActorPart::Engine)
    }
}

/// Chooses which caught part the lasso keeps.
pub fn lasso_priority_part(parts: &Vec<ActorPart>) -> (best: Option<ActorPart>)
    ensures
        best == spec_priority_part(parts@),
{
    if parts.len() == 0 {
        return None;
    }
    let mut best = ActorPart::Engine;
    let mut i: usize = 0;
    while i < parts.len()
        invariant
            i <= parts@.len(),
            parts@.take(i as int).contains(ActorPart::Head) ==> best == ActorPart::Head,
            !parts@.take(i as int).contains(ActorPart::Head) && parts@.take(i as int).contains(ActorPart::Body) ==> best == ActorPart::Body,
            !parts@.take(i as int).contains(ActorPart::Head) && !parts@.take(i as int).contains(ActorPart::Body) ==> best == ActorPart::Engine,
        decreases parts@.len() - i,
    {
        let p = parts[i];
        match p {
            ActorPart::Head => {
                best = ActorPart::Head;
            },
            ActorPart::Body => {
                if best != ActorPart::Head {
                    best = ActorPart::Body;
                }
            },
            ActorPart::Engine => {},
        }
        proof {
            let pre = parts@.take(i as int);
            let post = parts@.take(i + 1);
            assert(post =~= pre.push(p));
            assert forall|x: ActorPart| post.contains(x) <==> (pre.contains(x) || x == p) by {
                if post.contains(x) {
                    let k = choose|k: int| 0 <= k < post.len() && post[k] == x;
                    if k < pre.len() {
                        assert(pre[k] == x);
                    }
                }
                if pre.contains(x) {
                    let k = choose|k: int| 0 <= k < pre.len() && pre[k] == x;
                    assert(post[k] == x);
                }
                if x == p {
                    assert(post[i as int] == x);
                }
            }
        }
        i = i + 1;
    }
    assert(parts@.take(parts@.len() as int) =~= parts@);
    Some(best)
}

/// The lasso keeps a part only when it caught something, and then one of
/// the parts it caught: the head whenever it caught a head triangle,
/// otherwise the body whenever it caught a body triangle.
pub proof fn law_lasso_keeps_highest_priority(parts: Seq<ActorPart>)
    ensures
        parts.len() == 0 <==> spec_priority_part(parts) is None,
        forall|p: ActorPart| #[trigger] spec_priority_part(parts) == Some(p) ==> parts.contains(p),
        parts.contains(ActorPart::Head) ==> spec_priority_part(parts) == Some(ActorPart::Head),
        !parts.contains(ActorPart::Head) && parts.contains(ActorPart::Body) ==> spec_priority_part(parts) == Some(ActorPart::Body),
{
    if parts.len() > 0 {
        assert(parts.contains(parts[0]));
        if !parts.contains(ActorPart::Head) && !parts.contains(ActorPart::Body) {
            assert(parts[0] == ActorPart::Engine);
        }
    }
}

/// Applies picked triangle positions to a selection: added in `Add` mode,
/// removed in `Subtract` mode.
pub fn apply_selection(selection: &mut HashSet<usize>, picked: &Vec<usize>, mode: LassoSelectionMode)
    ensures
        mode == LassoSelectionMode::Add ==> final(selection)@ == old(selection)@.union(picked@.to_set()),
        mode == LassoSelectionMode::Subtract ==> final(selection)@ == old(selection)@.difference(picked@.to_set()),
{
    let ghost start = selection@;
    let mut i: usize = 0;
    while i < picked.len()
        invariant
            i <= picked@.len(),
            mode == LassoSelectionMode::Add ==> selection@ == start.union(picked@.take(i as int).to_set()),
            mode == LassoSelectionMode::Subtract ==> selection@ == start.difference(picked@.take(i as int).to_set()),
        decreases picked@.len() - i,
    {
        let x = picked[i];
        proof {
            assert(picked@.take(i + 1) =~= picked@.take(i as int).push(x));
            vstd::seq_lib::lemma_seq_contains_after_push(picked@.take(i as int), x, x);
            assert(picked@.take(i + 1).to_set() =~= picked@.take(i as int).to_set().insert(x)) by {
                assert forall|y: usize| picked@.take(i + 1).to_set().contains(y) <==> picked@.take(i as int).to_set().insert(x).contains(y) by {
                    vstd::seq_lib::lemma_seq_contains_after_push(picked@.take(i as int), x, y);
                }
            }
        }
        match mode {
            LassoSelectionMode::Add => {
                selection.insert(x);
            },
            LassoSelectionMode::Subtract => {
                selection.remove(&x);
            },
        }
        proof {
            if mode == LassoSelectionMode::Add {
                assert(selection@ =~= start.union(picked@.take(i + 1).to_set()));
            } else {
                assert(selection@ =~= start.difference(picked@.take(i + 1).to_set()));
            }
        }
        i = i + 1;
    }
    assert(picked@.take(picked@.len() as int) =~= picked@);
}

/// Adding a triangle and then subtracting it leaves it unselected, and
/// subtracting then adding leaves it selected, whatever the selection was.
pub proof fn law_add_subtract(s: Set<usize>, picked: Set<usize>)
    ensures
        s.union(picked).difference(picked) == s.difference(picked),
        s.difference(picked).union(picked) == s.union(picked),
{
    assert(s.union(picked).difference(picked) =~= s.difference(picked));
    assert(s.difference(picked).union(picked) =~= s.union(picked));
}

// ---------------------------------------------------------------------------
// Import
// ---------------------------------------------------------------------------

/// How a model file inside the assets folder is loaded.
pub enum ImportTarget {
    /// An `.obj` file, loaded as a single mesh.
    Mesh(String),
    /// Any other model, loaded as the first scene of the file.
    Scene(String),
}

/// `s` ends with `suffix`.
pub open spec fn ends_with(s: Seq<char>, suffix: Seq<char>) -> bool {
    suffix.len() <= s.len() && s.subrange(s.len() - suffix.len(), s.len() as int) == suffix
}

/// Asset path of a model relative to the assets folder: `.obj` files load
/// as a mesh, every other file as its `#Scene0` label.
pub fn import_target(relative_path: &String) -> (t: ImportTarget)
    ensures
        ends_with(relative_path@, seq!['.', 'o', 'b', 'j']) ==> (t matches ImportTarget::Mesh(p) && p@ == relative_path@),
        !ends_with(relative_path@, seq!['.', 'o', 'b', 'j']) ==> (t matches ImportTarget::Scene(p)
            && p@ == relative_path@ + seq!['#', 'S', 'c', 'e', 'n', 'e', '0']),
{
    let chars = crate::sockets::string_chars(relative_path);
    let n = chars.len();
    let is_obj = n >= 4 && chars[n - 4] == '.' && chars[n - 3] == 'o' && chars[n - 2] == 'b' && chars[n - 1] == 'j';
    proof {
        if n >= 4 {
            assert(relative_path@.subrange(n - 4, n as int) =~= seq![chars@[n - 4], chars@[n - 3], chars@[n - 2], chars@[n - 1]]);
        }
        if is_obj {
            assert(relative_path@.subrange(n - 4, n as int) =~= seq!['.', 'o', 'b', 'j']);
        }
    }
    if is_obj {
        ImportTarget::Mesh(relative_path.clone())
    } else {
        let mut p = relative_path.clone();
        proof {
            reveal_strlit("#Scene0");
        }
        p.append("#Scene0");
        assert(p@ =~= relative_path@ + seq!['#', 'S', 'c', 'e', 'n', 'e', '0']);
        ImportTarget::Scene(p)
    }
}

// ---------------------------------------------------------------------------
// Saving
// ---------------------------------------------------------------------------

/// What a save request turns into.
pub enum SaveDecision {
    /// Nothing to save under: no name given and no project open.
    NoActiveProject,
    /// A different project of that name is on disk; ask before overwriting.
    ConfirmOverwrite(String),
    /// Write the project under this name.
    Save(String),
}

/// Decides a save request.  The target name is the requested one, or the
/// current project's.  An unforced save of a project never saved before,
/// whose target already exists on disk, asks for confirmation first.
pub fn decide_save(
    requested: Option<String>,
    current_name: &String,
    force: bool,
    is_saved: bool,
    target_exists: bool,
) -> (d: SaveDecision)
    ensures
        ({
            let target = match requested {
                Some(n) => n@,
                None => current_name@,
            };
            &&& target.len() == 0 ==> d is NoActiveProject
            &&& target.len() > 0 && !force && !is_saved && target_exists ==> (d matches SaveDecision::ConfirmOverwrite(n) && n@ == target)
            &&& target.len() > 0 && !(!force && !is_saved && target_exists) ==> (d matches SaveDecision::Save(n) && n@ == target)
        }),
{
    let target = match requested {
        Some(n) => n,
        None => current_name.clone(),
    };
    if target.as_str().is_empty() {
        return SaveDecision::NoActiveProject;
    }
    if !force && !is_saved && target_exists {
        return SaveDecision::ConfirmOverwrite(target);
    }
    SaveDecision::Save(target)
}

/// The action a confirmation dialog stands for.
pub enum EditorAction {
    BackToMenu,
    SaveProject(String),
    OverwriteProject(String),
}

/// What confirming a dialog does.
pub enum ConfirmOutcome {
    /// Return to the main menu.
    GoToMenu,
    /// Send a save request for this name.
    SaveAs { name: String, force: bool },
    /// Nothing (an empty name was typed).
    Nothing,
}

/// A character with the Unicode `White_Space` property, the white space
/// that `str::trim` removes.
pub open spec fn is_white_space(c: char) -> bool {
    let n = c as int;
    ||| 9 <= n <= 13
    ||| n == 32
    ||| n == 0x85
    ||| n == 0xA0
    ||| n == 0x1680
    ||| 0x2000 <= n <= 0x200A
    ||| n == 0x2028
    ||| n == 0x2029
    ||| n == 0x202F
    ||| n == 0x205F
    ||| n == 0x3000
}

/// Text with its leading white space removed.
pub open spec fn trim_start(s: Seq<char>) -> Seq<char>
    decreases s.len(),
{
    if s.len() > 0 && is_white_space(s[0]) {
        trim_start(s.drop_first())
    } else {
        s
    }
}

/// Text with its trailing white space removed.
pub open spec fn trim_end(s: Seq<char>) -> Seq<char>
    decreases s.len(),
{
    if s.len() > 0 && is_white_space(s.last()) {
        trim_end(s.drop_last())
    } else {
        s
    }
}

/// Text with leading and trailing white space removed.
pub open spec fn trimmed(s: Seq<char>) -> Seq<char> {
    trim_end(trim_start(s))
}

proof fn lemma_trim_start(s: Seq<char>) -> (i: int)
    ensures
        0 <= i <= s.len(),
        trim_start(s) == s.subrange(i, s.len() as int),
        forall|k: int| 0 <= k < i ==> is_white_space(#[trigger] s[k]),
        i < s.len() ==> !is_white_space(s[i]),
    decreases s.len(),
{
    if s.len() > 0 && is_white_space(s[0]) {
        let rest = s.drop_first();
        let j = lemma_trim_start(rest);
        assert forall|k: int| 0 <= k < j + 1 implies is_white_space(#[trigger] s[k]) by {
            if k > 0 {
                assert(s[k] == rest[k - 1]);
            }
        }
        assert(rest.subrange(j, rest.len() as int) =~= s.subrange(j + 1, s.len() as int));
        if j + 1 < s.len() {
            assert(s[j + 1] == rest[j]);
        }
        j + 1
    } else {
        assert(s.subrange(0, s.len() as int) =~= s);
        0
    }
}

proof fn lemma_trim_end(s: Seq<char>) -> (j: int)
    ensures
        0 <= j <= s.len(),
        trim_end(s) == s.subrange(0, j),
        forall|k: int| j <= k < s.len() ==> is_white_space(#[trigger] s[k]),
        j > 0 ==> !is_white_space(s[j - 1]),
    decreases s.len(),
{
    if s.len() > 0 && is_white_space(s.last()) {
        let rest = s.drop_last();
        let j = lemma_trim_end(rest);
        assert forall|k: int| j <= k < s.len() implies is_white_space(#[trigger] s[k]) by {
            if k < s.len() - 1 {
                assert(s[k] == rest[k]);
            }
        }
        assert(rest.subrange(0, j) =~= s.subrange(0, j));
        if j > 0 {
            assert(s[j - 1] == rest[j - 1]);
        }
        j
    } else {
        assert(s.subrange(0, s.len() as int) =~= s);
        s.len() as int
    }
}

/// Trimming removes white space from the two ends and nothing else: the
/// result is a contiguous piece of the text, everything cut off before and
/// after it is white space, and a non-empty result neither starts nor ends
/// with white space.
pub proof fn law_trim_removes_only_outer_white_space(s: Seq<char>)
    ensures
        exists|i: int, j: int|
            0 <= i <= j <= s.len() && trimmed(s) == #[trigger] s.subrange(i, j)
                && (forall|k: int| 0 <= k < i ==> is_white_space(#[trigger] s[k]))
                && (forall|k: int| j <= k < s.len() ==> is_white_space(#[trigger] s[k]))
                && (i < j ==> !is_white_space(s[i]) && !is_white_space(s[j - 1])),
{
    let i = lemma_trim_start(s);
    let t = s.subrange(i, s.len() as int);
    let e = lemma_trim_end(t);
    let j = i + e;
    assert(t.subrange(0, e) =~= s.subrange(i, j));
    assert forall|k: int| j <= k < s.len() implies is_white_space(#[trigger] s[k]) by {
        assert(s[k] == t[k - i]);
    }
    if i < j {
        assert(s[j - 1] == t[e - 1]);
    }
    assert(trimmed(s) == s.subrange(i, j));
}

/// Removes leading and trailing white space.
///
/// Calls `str::trim`, which removes the characters with the Unicode
/// `White_Space` property from both ends of the text.
#[verifier::external_body]
fn trim_text(s: &str) -> (r: String)
    ensures
        r@ == trimmed(s@),
{
    s.trim().to_string()
}

/// Outcome of pressing "confirm" on a dialog, given the text typed in the
/// save dialog's name field.
pub fn confirm_action(action: &EditorAction, typed_name: &String) -> (o: ConfirmOutcome)
    ensures
        action is BackToMenu ==> o is GoToMenu,
        action is SaveProject && trimmed(typed_name@).len() == 0 ==> o is Nothing,
        action is SaveProject && trimmed(typed_name@).len() > 0 ==> (o matches ConfirmOutcome::SaveAs { name, force }
            && name@ == trimmed(typed_name@) && !force),
        action matches EditorAction::OverwriteProject(n) ==> (o matches ConfirmOutcome::SaveAs { name, force }
            && name@ == n@ && force),
{
    match action {
        EditorAction::BackToMenu => ConfirmOutcome::GoToMenu,
        EditorAction::SaveProject(_) => {
            let name = trim_text(typed_name.as_str());
            if name.as_str().is_empty() {
                ConfirmOutcome::Nothing
            } else {
                ConfirmOutcome::SaveAs { name, force: false }
            }
        },
        EditorAction::OverwriteProject(n) => ConfirmOutcome::SaveAs { name: n.clone(), force: true },
    }
}

/// What saving an effect preset under a typed name does.
pub enum PresetSave {
    /// The name field is blank: ask for a name.
    MissingName,
    /// Save the selected socket's effect under this (trimmed) name.
    Save(String),
}

/// Decides an effect-preset save from the text typed in the preset name
/// field: a name that is blank once trimmed is refused.
pub fn decide_preset_save(typed: &String) -> (d: PresetSave)
    ensures
        trimmed(typed@).len() == 0 <==> d is MissingName,
        d matches PresetSave::Save(n) ==> n@ == trimmed(typed@),
{
    let name = trim_text(typed.as_str());
    if name.as_str().is_empty() {
        PresetSave::MissingName
    } else {
        PresetSave::Save(name)
    }
}

// ---------------------------------------------------------------------------
// Inspector sections
// ---------------------------------------------------------------------------

/// The mode after the user has opened inspector sections: opening the
/// sockets section switches to socket mode, opening the parts section to
/// slicing mode (the latter wins when both happen at once).
pub open spec fn spec_mode_after(current: EditorMode, sockets_opened: bool, parts_opened: bool) -> EditorMode {
    if parts_opened && current != EditorMode::Slicing {
        EditorMode::Slicing
    } else if sockets_opened && current != EditorMode::Sockets {
        EditorMode::Sockets
    } else {
        current
    }
}

/// Result of syncing the inspector with the mode.
pub struct InspectorSync {
    pub mode: EditorMode,
    /// The socket selection is cleared (the editor left socket mode).
    pub clear_socket_selection: bool,
}

/// Syncs the mode with sections the user has just opened.
pub fn sync_inspector_mode(current: EditorMode, sockets_opened: bool, parts_opened: bool) -> (s: InspectorSync)
    ensures
        s.mode == spec_mode_after(current, sockets_opened, parts_opened),
        s.clear_socket_selection == (s.mode != current && s.mode == EditorMode::Slicing),
{
    let mut target = current;
    if sockets_opened && current != EditorMode::Sockets {
        target = EditorMode::Sockets;
    }
    if parts_opened && current != EditorMode::Slicing {
        target = EditorMode::Slicing;
    }
    let clear = target != current && target == EditorMode::Slicing;
    InspectorSync { mode: target, clear_socket_selection: clear }
}

/// Opening the parts section while not slicing switches to slicing mode;
/// otherwise opening the sockets section while not in socket mode switches
/// to socket mode; the mode only ever becomes the current one or the mode
/// of a section that was opened.
pub proof fn law_opened_section_sets_mode(current: EditorMode, sockets_opened: bool, parts_opened: bool)
    ensures
        parts_opened && current != EditorMode::Slicing ==> spec_mode_after(current, sockets_opened, parts_opened) == EditorMode::Slicing,
        sockets_opened && current != EditorMode::Sockets && !(parts_opened && current != EditorMode::Slicing)
            ==> spec_mode_after(current, sockets_opened, parts_opened) == EditorMode::Sockets,
        ({
            let m = spec_mode_after(current, sockets_opened, parts_opened);
            ||| m == current
            ||| m == EditorMode::Slicing && parts_opened
            ||| m == EditorMode::Sockets && sockets_opened
        }),
{
}

/// Which inspector sections are open in a mode: `(sockets, parts)`; exactly
/// the active mode's section is open.
pub fn sections_for_mode(mode: EditorMode) -> (open: (bool, bool))
    ensures
        open.0 == (mode == EditorMode::Sockets),
        open.1 == (mode == EditorMode::Slicing),
        open.0 != open.1,
{
    (mode == EditorMode::Sockets, mode == EditorMode::Slicing)
}

// ---------------------------------------------------------------------------
// Layout and progress
// ---------------------------------------------------------------------------

/// Side of the orientation gizmo's square viewport, in physical pixels.
pub const GIZMO_VIEWPORT_SIZE: u32 = 120;

/// Gap between the gizmo viewport and the window's corner.
pub const GIZMO_VIEWPORT_PADDING: u32 = 20;

/// Physical position and size of the orientation gizmo viewport:
/// `(x, y, width, height)`, placed in the bottom-left corner.
pub fn gizmo_viewport(window_height: u32) -> (v: (u32, u32, u32, u32))
    ensures
        v.0 == GIZMO_VIEWPORT_PADDING,
        v.1 == (if window_height >= GIZMO_VIEWPORT_SIZE + GIZMO_VIEWPORT_PADDING {
            window_height - GIZMO_VIEWPORT_SIZE - GIZMO_VIEWPORT_PADDING
        } else {
            0
        }),
        v.2 == GIZMO_VIEWPORT_SIZE,
        v.3 == GIZMO_VIEWPORT_SIZE,
{
    let size = GIZMO_VIEWPORT_SIZE;
    let padding = GIZMO_VIEWPORT_PADDING;
    let y = window_height.saturating_sub(size + padding);
    (padding, y, size, size)
}

/// Entities examined per frame while normalising an imported model.
pub const NORMALIZATION_CHUNK: usize = 50;

/// Number of entities examined after one more frame of normalisation.
pub fn normalization_step(processed: usize, total: usize) -> (next: usize)
    ensures
        processed >= total ==> next == processed,
        processed < total ==> next == (if total - processed <= NORMALIZATION_CHUNK { total as int } else { processed + NORMALIZATION_CHUNK }),
{
    let mut count = processed;
    let mut this_frame: usize = 0;
    while this_frame < NORMALIZATION_CHUNK && count < total
        invariant
            this_frame <= NORMALIZATION_CHUNK,
            count == processed + this_frame,
            processed < total ==> count <= total,
            processed >= total ==> count == processed,
        decreases NORMALIZATION_CHUNK - this_frame,
    {
        count = count + 1;
        this_frame = this_frame + 1;
    }
    count
}

/// Name fragments (lower case) of the helper meshes that an imported scene
/// may carry besides the actor: shadows, floors, planes, grids, backdrops.
pub open spec fn environment_fragments() -> Seq<Seq<char>> {
    seq![
        seq!['s', 'h', 'a', 'd', 'o', 'w'],
        seq!['f', 'l', 'o', 'o', 'r'],
        seq!['p', 'l', 'a', 'n', 'e'],
        seq!['g', 'r', 'i', 'd'],
        seq!['b', 'a', 'c', 'k', 'g', 'r', 'o', 'u', 'n', 'd'],
    ]
}

/// A mesh is part of the environment, not of the actor, when its
/// lower-cased name contains one of the environment fragments.
pub open spec fn spec_is_environment_mesh(name: Seq<char>) -> bool {
    exists|k: int| 0 <= k < environment_fragments().len()
        && contains_chars(lowercase(name), #[trigger] environment_fragments()[k])
}

/// A mesh is environment exactly when its lower-cased name contains
/// "shadow", "floor", "plane", "grid" or "background".
pub proof fn law_environment_names(name: Seq<char>)
    ensures
        spec_is_environment_mesh(name) <==> {
            let l = lowercase(name);
            ||| contains_chars(l, seq!['s', 'h', 'a', 'd', 'o', 'w'])
            ||| contains_chars(l, seq!['f', 'l', 'o', 'o', 'r'])
            ||| contains_chars(l, seq!['p', 'l', 'a', 'n', 'e'])
            ||| contains_chars(l, seq!['g', 'r', 'i', 'd'])
            ||| contains_chars(l, seq!['b', 'a', 'c', 'k', 'g', 'r', 'o', 'u', 'n', 'd'])
        },
{
    let f = environment_fragments();
    let l = lowercase(name);
    assert(f[0] =~= seq!['s', 'h', 'a', 'd', 'o', 'w']);
    assert(f[1] =~= seq!['f', 'l', 'o', 'o', 'r']);
    assert(f[2] =~= seq!['p', 'l', 'a', 'n', 'e']);
    assert(f[3] =~= seq!['g', 'r', 'i', 'd']);
    assert(f[4] =~= seq!['b', 'a', 'c', 'k', 'g', 'r', 'o', 'u', 'n', 'd']);
    if contains_chars(l, f[0]) || contains_chars(l, f[1]) || contains_chars(l, f[2]) || contains_chars(l, f[3]) || contains_chars(l, f[4]) {
        assert(spec_is_environment_mesh(name));
    }
}

/// Whether normalisation leaves a mesh out of the actor's bounds because its
/// name marks it as environment.
pub fn is_environment_mesh(name: &String) -> (b: bool)
    ensures
        b == spec_is_environment_mesh(name@),
{
    let lower = to_lowercase(name.as_str());
    let text = string_chars(&lower);
    let fragments: Vec<Vec<char>> = vec![
        vec!['s', 'h', 'a', 'd', 'o', 'w'],
        vec!['f', 'l', 'o', 'o', 'r'],
        vec!['p', 'l', 'a', 'n', 'e'],
        vec!['g', 'r', 'i', 'd'],
        vec!['b', 'a', 'c', 'k', 'g', 'r', 'o', 'u', 'n', 'd'],
    ];
    assert(fragments@.len() == environment_fragments().len());
    assert forall|k: int| 0 <= k < fragments@.len() implies #[trigger] fragments@[k]@ == environment_fragments()[k] by {
        assert(fragments@[0]@ =~= environment_fragments()[0]);
        assert(fragments@[1]@ =~= environment_fragments()[1]);
        assert(fragments@[2]@ =~= environment_fragments()[2]);
        assert(fragments@[3]@ =~= environment_fragments()[3]);
        assert(fragments@[4]@ =~= environment_fragments()[4]);
    }
    let mut k: usize = 0;
    while k < fragments.len()
        invariant
            k <= fragments@.len(),
            fragments@.len() == environment_fragments().len(),
            text@ == lowercase(name@),
            forall|m: int| 0 <= m < fragments@.len() ==> #[trigger] fragments@[m]@ == environment_fragments()[m],
            forall|m: int| 0 <= m < k ==> !contains_chars(lowercase(name@), #[trigger] environment_fragments()[m]),
        decreases fragments@.len() - k,
    {
        if find_chars(&text, &fragments[k]) {
            assert(fragments@[k as int]@ == environment_fragments()[k as int]);
            return true;
        }
        assert(fragments@[k as int]@ == environment_fragments()[k as int]);
        k = k + 1;
    }
    false
}

/// Status bar text of a status.
pub open spec fn spec_status_label(s: EditorStatus) -> Seq<char> {
    match s {
        EditorStatus::Ready => seq!['R', 'E', 'A', 'D', 'Y'],
        EditorStatus::Saving => seq!['S', 'A', 'V', 'I', 'N', 'G', '.', '.', '.'],
        EditorStatus::Loading => seq!['L', 'O', 'A', 'D', 'I', 'N', 'G', '.', '.', '.'],
        EditorStatus::Processing => seq!['P', 'R', 'O', 'C', 'E', 'S', 'S', 'I', 'N', 'G', '.', '.', '.'],
    }
}

/// The status bar text.
pub fn status_label(s: EditorStatus) -> (label: &'static str)
    ensures
        label@ == spec_status_label(s),
{
    proof {
        reveal_strlit("READY");
        reveal_strlit("SAVING...");
        reveal_strlit("LOADING...");
        reveal_strlit("PROCESSING...");
    }
    let label = match s {
        EditorStatus::Ready => "READY",
        EditorStatus::Saving => "SAVING...",
        EditorStatus::Loading => "LOADING...",
        EditorStatus::Processing => "PROCESSING...",
    };
    assert(label@ =~= spec_status_label(s));
    label
}

/// The loading overlay is shown exactly while a model is loading.
pub fn loading_overlay_visible(s: EditorStatus) -> (visible: bool)
    ensures
        visible == (s == EditorStatus::Loading),
{
    s == EditorStatus::Loading
}


// ---------------------------------------------------------------------------
// Viewport and inspection settings
// ---------------------------------------------------------------------------

/// Which helpers the viewport draws.
#[derive(Clone, Copy, Debug, PartialEq, Eq, Structural)]
pub struct ViewportSettings {
    pub grid: bool,
    pub slices: bool,
    pub sockets: bool,
    pub gizmos: bool,
    pub xray: bool,
    pub show_vfx: bool,
}

impl Default for ViewportSettings {
    /// Everything shown except the x-ray view.
    fn default() -> (v: Self)
        ensures
            v == (ViewportSettings { grid: true, slices: true, sockets: true, gizmos: true, xray: false, show_vfx: true }),
    {
        ViewportSettings { grid: true, slices: true, sockets: true, gizmos: true, xray: false, show_vfx: true }
    }
}

impl ViewportSettings {
    /// Applies the viewport hotkeys pressed this frame: G toggles the grid,
    /// S the slice contours, K the sockets and Z the gizmos.
    pub fn apply_hotkeys(&mut self, g: bool, s: bool, k: bool, z: bool)
        ensures
            final(self).grid == (old(self).grid != g),
            final(self).slices == (old(self).slices != s),
            final(self).sockets == (old(self).sockets != k),
            final(self).gizmos == (old(self).gizmos != z),
            final(self).xray == old(self).xray,
            final(self).show_vfx == old(self).show_vfx,
    {
        if g {
            self.grid = !self.grid;
        }
        if s {
            self.slices = !self.slices;
        }
        if k {
            self.sockets = !self.sockets;
        }
        if z {
            self.gizmos = !self.gizmos;
        }
    }
}

/// State of the part inspection view.
#[derive(Clone, Copy, Debug, PartialEq, Eq, Structural)]
pub struct InspectionSettings {
    pub is_active: bool,
    pub isolated_part: Option<ActorPart>,
    pub ghost_mode: bool,
    pub wireframe: bool,
    pub show_normals: bool,
    pub hovered_part: Option<ActorPart>,
}

impl InspectionSettings {
    /// Inspection off, nothing isolated or hovered.
    pub fn new() -> (s: Self)
        ensures
            s == (InspectionSettings {
                is_active: false,
                isolated_part: None,
                ghost_mode: false,
                wireframe: false,
                show_normals: false,
                hovered_part: None,
            }),
    {
        InspectionSettings {
            is_active: false,
            isolated_part: None,
            ghost_mode: false,
            wireframe: false,
            show_normals: false,
            hovered_part: None,
        }
    }

    /// The inspection key: turns inspection on and isolates the next part of
    /// the cycle; returns the part to focus the camera on, if any.
    pub fn advance_isolation(&mut self) -> (focus: Option<ActorPart>)
        ensures
            final(self).is_active,
            final(self).isolated_part == spec_next_isolated(old(self).isolated_part),
            focus == final(self).isolated_part,
            final(self).ghost_mode == old(self).ghost_mode,
            final(self).wireframe == old(self).wireframe,
            final(self).show_normals == old(self).show_normals,
            final(self).hovered_part == old(self).hovered_part,
    {
        self.is_active = true;
        let next = next_isolated_part(self.isolated_part);
        self.isolated_part = next;
        next
    }

    /// Whether a part is drawn: always when inspection is off or nothing is
    /// isolated; otherwise the isolated part, and the others only in ghost
    /// mode.
    pub fn part_visible(&self, part: ActorPart) -> (visible: bool)
        ensures
            visible == (!self.is_active || self.isolated_part is None || self.isolated_part == Some(part) || self.ghost_mode),
    {
        if !self.is_active {
            return true;
        }
        match self.isolated_part {
            None => true,
            Some(iso) => iso == part || self.ghost_mode,
        }
    }
}

/// Undo and redo requests raised by the keyboard this frame:
/// Ctrl+Z undoes, Ctrl+Shift+Z and Ctrl+Y redo.  Returns
/// `(undo_requests, redo_requests)`.
pub fn shortcut_requests(ctrl: bool, shift: bool, z_pressed: bool, y_pressed: bool) -> (r: (u32, u32))
    ensures
        r.0 == (if ctrl && z_pressed && !shift { 1u32 } else { 0u32 }),
        r.1 == (if ctrl && z_pressed && shift { 1u32 } else { 0u32 }) + (if ctrl && y_pressed { 1u32 } else { 0u32 }),
{
    let mut undo: u32 = 0;
    let mut redo: u32 = 0;
    if ctrl && z_pressed {
        if shift {
            redo = redo + 1;
        } else {
            undo = undo + 1;
        }
    }
    if ctrl && y_pressed {
        redo = redo + 1;
    }
    (undo, redo)
}

} // verus!
