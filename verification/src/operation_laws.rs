use vstd::prelude::*;

use crate::appearance::TerminalPalette;
use crate::emulator::{named_color, AnsiNamedColor};
use crate::grid::{dimmed, indexed_color};
use crate::input::{route_spec, InputRouteView, TerminalKey, TerminalKeyEvent};
use crate::shell::resolve_spec;
use vstd::utf8::{decode_utf8, encode_utf8, valid_utf8};
use crate::controller::{jump_to_target, selected_ids, AppControllerError};
use crate::controller_coverage::{lemma_first_where_update, pos_id, pos_valid, unique_surface_ids, Pos};
use crate::model::ModelError;
use crate::ids::{PaneId, SurfaceId, WorkspaceId};
use crate::model_laws::{lemma_selected_pane_loc, lemma_selected_window_loc, lemma_selected_workspace_loc, lemma_surface_loc};
use crate::model_view::{pv_is, pv_ix, recompute_workspace, sv_is, sv_ix, wsv_is, wsv_ix, wv_is, wv_ix, ModelView, PaneView, SurfaceView, WindowView, WorkspaceView};
use crate::outcome_laws::{lemma_same_shape_trans, lemma_shape_mark_surface_read, lemma_shape_select_pane, lemma_shape_select_surface, lemma_shape_select_workspace, same_shape};
use crate::search::lemma_first_where_spec;
use crate::target_laws::{lemma_model_targets_from, pos_target, pos_unread};
use crate::model_view::target_key;
use crate::search::lemma_last_max_by_is_max;
use crate::target_laws::model_targets;

verus! {

/// The number an SGR sequence gives each of the sixteen base colors (`30 + n` or `90 + n - 8`
/// for the foreground, `38;5;n` as an indexed color): the eight normal colors in the order
/// black, red, green, yellow, blue, magenta, cyan, white, then their bright forms.
pub open spec fn ansi_number(c: AnsiNamedColor) -> Option<u8> {
    match c {
        AnsiNamedColor::Black => Some(0u8),
        AnsiNamedColor::Red => Some(1u8),
        AnsiNamedColor::Green => Some(2u8),
        AnsiNamedColor::Yellow => Some(3u8),
        AnsiNamedColor::Blue => Some(4u8),
        AnsiNamedColor::Magenta => Some(5u8),
        AnsiNamedColor::Cyan => Some(6u8),
        AnsiNamedColor::White => Some(7u8),
        AnsiNamedColor::BrightBlack => Some(8u8),
        AnsiNamedColor::BrightRed => Some(9u8),
        AnsiNamedColor::BrightGreen => Some(10u8),
        AnsiNamedColor::BrightYellow => Some(11u8),
        AnsiNamedColor::BrightBlue => Some(12u8),
        AnsiNamedColor::BrightMagenta => Some(13u8),
        AnsiNamedColor::BrightCyan => Some(14u8),
        AnsiNamedColor::BrightWhite => Some(15u8),
        _ => None,
    }
}

/// The normal color a dim color dims.
pub open spec fn dims(c: AnsiNamedColor) -> Option<AnsiNamedColor> {
    match c {
        AnsiNamedColor::DimBlack => Some(AnsiNamedColor::Black),
        AnsiNamedColor::DimRed => Some(AnsiNamedColor::Red),
        AnsiNamedColor::DimGreen => Some(AnsiNamedColor::Green),
        AnsiNamedColor::DimYellow => Some(AnsiNamedColor::Yellow),
        AnsiNamedColor::DimBlue => Some(AnsiNamedColor::Blue),
        AnsiNamedColor::DimMagenta => Some(AnsiNamedColor::Magenta),
        AnsiNamedColor::DimCyan => Some(AnsiNamedColor::Cyan),
        AnsiNamedColor::DimWhite => Some(AnsiNamedColor::White),
        _ => None,
    }
}

/// A named color renders as the palette gives it: each of the sixteen base colors as the
/// palette entry at its ANSI number, the same as the indexed color of that number; each dim
/// color as its normal color dimmed; the foreground colors as the palette's foreground, and
/// the background and cursor as the palette's.
pub proof fn law_named_colors_follow_palette(c: AnsiNamedColor, p: TerminalPalette)
    ensures
        ansi_number(c) matches Some(n) ==> named_color(c, p) == p.ansi@[n as int] && named_color(c, p) == indexed_color(n, p),
        dims(c) matches Some(b) ==> named_color(c, p) == dimmed(named_color(b, p)),
        c == AnsiNamedColor::Foreground || c == AnsiNamedColor::BrightForeground || c == AnsiNamedColor::DimForeground
            ==> named_color(c, p) == p.foreground,
        c == AnsiNamedColor::Background ==> named_color(c, p) == p.background,
        c == AnsiNamedColor::Cursor ==> named_color(c, p) == p.cursor,
{
}

/// A character typed without Ctrl or Alt is written to the terminal as its UTF-8 encoding,
/// with Shift held or not and with a selection or not: the bytes written are valid UTF-8 and
/// decode to exactly that character.
pub proof fn law_plain_characters_are_written(e: TerminalKeyEvent)
    requires
        e.key is Character,
        !e.ctrl,
        !e.alt,
    ensures
        route_spec(e) == InputRouteView::WriteBytes(encode_utf8(seq![e.key->Character_0])),
        valid_utf8(encode_utf8(seq![e.key->Character_0])),
        decode_utf8(encode_utf8(seq![e.key->Character_0])) == seq![e.key->Character_0],
        forall|shift: bool, selection: bool|
            route_spec(TerminalKeyEvent { shift, selection_present: selection, ..e }) == route_spec(e),
{
    let ch = e.key->Character_0;
    let cs = seq![ch];
    assert(cs.drop_first() =~= Seq::<char>::empty());
    assert(cs[0] == ch);
    assert(encode_utf8(cs.drop_first()) =~= Seq::<u8>::empty());
    assert(encode_utf8(cs) == vstd::utf8::encode_scalar(ch as u32) + encode_utf8(cs.drop_first()));
    assert(encode_utf8(cs) =~= vstd::utf8::encode_scalar(ch as u32));
    vstd::utf8::encode_utf8_valid_utf8(cs);
    vstd::utf8::encode_utf8_decode_utf8(cs);
}

/// The shell chosen is the first of pwsh, Windows PowerShell and cmd.exe, in that order, that
/// is installed, and is not a last resort; with none of them installed it is cmd.exe, as a
/// last resort. The names looked for are reported in that order.
pub proof fn law_resolve_prefers_in_order(available: Set<Seq<char>>)
    ensures
        resolve_spec(available).attempted == seq!["pwsh"@, "powershell.exe"@, "cmd.exe"@],
        (exists|i: int| 0 <= i < 3 && available.contains(#[trigger] resolve_spec(available).attempted[i])) ==> {
            &&& !resolve_spec(available).used_last_resort
            &&& exists|i: int|
                0 <= i < 3 && resolve_spec(available).program == #[trigger] resolve_spec(available).attempted[i]
                    && available.contains(resolve_spec(available).attempted[i]) && forall|j: int|
                    0 <= j < i ==> !available.contains(#[trigger] resolve_spec(available).attempted[j])
        },
        (forall|i: int| 0 <= i < 3 ==> !available.contains(#[trigger] resolve_spec(available).attempted[i])) ==> {
            &&& resolve_spec(available).used_last_resort
            &&& resolve_spec(available).program == "cmd.exe"@
        },
{
    let r = resolve_spec(available);
    let a = seq!["pwsh"@, "powershell.exe"@, "cmd.exe"@];
    assert(r.attempted == a);
    assert(a[0] == "pwsh"@ && a[1] == "powershell.exe"@ && a[2] == "cmd.exe"@);
    if available.contains(a[0]) {
        assert(r.program == a[0]);
    } else if available.contains(a[1]) {
        assert(r.program == a[1]);
    } else if available.contains(a[2]) {
        assert(r.program == a[2]);
    }
}

/// Marking a surface read leaves every selection, and every id that selections go by, as it was.
proof fn lemma_mark_read_keeps_selection(m: ModelView, id: SurfaceId)
    requires
        m.mark_surface_read(id).1 is Ok,
    ensures
        m.mark_surface_read(id).0.selected_pane_loc() == m.selected_pane_loc(),
        selected_ids(m.mark_surface_read(id).0) == selected_ids(m),
{
    lemma_surface_loc(m, id);
    let (wi, k, p, s) = m.surface_loc(id).unwrap();
    let pane = m.pane(wi, k, p);
    let sv = SurfaceView { unread: false, unread_message: None, unread_sequence: None, ..m.surface(wi, k, p, s) };
    let pane2 = PaneView { surfaces: pane.surfaces.update(s, sv), ..pane };
    let ws = m.workspace(wi, k);
    let ws_a = WorkspaceView { panes: ws.panes.update(p, pane2), ..ws };
    let ws_b = recompute_workspace(ws_a);
    let w = m.windows[wi];
    let w_b = WindowView { workspaces: w.workspaces.update(k, ws_b), ..w };
    let m2 = m.mark_surface_read(id).0;
    let ma = m.set_surface(wi, k, p, s, sv);
    let w_a = WindowView { workspaces: w.workspaces.update(k, ws_a), ..w };
    assert(ma.windows == m.windows.update(wi, w_a));
    assert(ma.workspace(wi, k) == ws_a);
    assert(ma.windows[wi].workspaces.update(k, ws_b) =~= w.workspaces.update(k, ws_b));
    assert(m2.windows =~= m.windows.update(wi, w_b));
    assert(m2.selected_window == m.selected_window);
    lemma_first_where_update(m.windows, wi, w_b, wv_is(m.selected_window));
    lemma_selected_window_loc(m);
    if let Ok(wj) = m.selected_window_loc() {
        if wj == wi {
            lemma_first_where_update(w.workspaces, k, ws_b, wsv_is(w.selected_workspace));
            lemma_selected_workspace_loc(m);
            if let Ok((_, kj)) = m.selected_workspace_loc() {
                if kj == k {
                    lemma_first_where_update(ws.panes, p, pane2, pv_is(ws.selected_pane));
                    assert(ws_b.panes == ws.panes.update(p, pane2));
                } else {
                    assert(m2.workspace(wi, kj) == m.workspace(wi, kj));
                }
            }
        } else {
            assert(m2.windows[wj] == m.windows[wj]);
        }
    }
    lemma_selected_pane_loc(m);
    if let Ok((a, b, c)) = m.selected_pane_loc() {
        if a == wi && b == k && c == p {
            assert(m2.pane(a, b, c).selected_surface == m.pane(a, b, c).selected_surface);
        } else if a == wi && b == k {
            assert(m2.pane(a, b, c) == m.pane(a, b, c));
        } else if a == wi {
            assert(m2.workspace(a, b) == m.workspace(a, b));
        } else {
            assert(m2.windows[a] == m.windows[a]);
        }
    }
}

/// Selecting the workspace, pane and surface of an unread target, one after the other, makes
/// them the selection.
proof fn lemma_select_chain(m: ModelView, t: crate::model_view::TargetView)
    requires
        m.select_workspace(t.workspace_id).1 is Ok,
        m.select_workspace(t.workspace_id).0.select_pane(t.pane_id).1 is Ok,
        m.select_workspace(t.workspace_id).0.select_pane(t.pane_id).0.select_surface(t.surface_id).1 is Ok,
    ensures
        selected_ids(m.select_workspace(t.workspace_id).0.select_pane(t.pane_id).0.select_surface(t.surface_id).0)
            == Ok::<(WorkspaceId, PaneId, SurfaceId), ModelError>((t.workspace_id, t.pane_id, t.surface_id)),
{
    let m1 = m.select_workspace(t.workspace_id).0;
    let m2 = m1.select_pane(t.pane_id).0;
    let m3 = m2.select_surface(t.surface_id).0;
    lemma_selected_window_loc(m);
    let wi = m.selected_window_loc().unwrap();
    let w = m.windows[wi];
    let k = wsv_ix(w.workspaces, t.workspace_id);
    lemma_first_where_spec(w.workspaces, wsv_is(t.workspace_id));
    let w1 = WindowView { selected_workspace: t.workspace_id, ..w };
    assert(m1.windows == m.windows.update(wi, w1));
    lemma_first_where_update(m.windows, wi, w1, wv_is(m.selected_window));
    assert(m1.selected_window_loc() == Ok::<int, ModelError>(wi));
    assert(m1.selected_workspace_loc() == Ok::<(int, int), ModelError>((wi, k)));
    let ws = m1.workspace(wi, k);
    assert(ws.id == t.workspace_id);
    let p = pv_ix(ws.panes, t.pane_id);
    lemma_first_where_spec(ws.panes, pv_is(t.pane_id));
    let ws2 = WorkspaceView { selected_pane: t.pane_id, ..ws };
    let w2 = WindowView { workspaces: w1.workspaces.update(k, ws2), ..w1 };
    assert(m2.windows == m1.windows.update(wi, w2));
    lemma_first_where_update(m1.windows, wi, w2, wv_is(m.selected_window));
    lemma_first_where_update(w1.workspaces, k, ws2, wsv_is(t.workspace_id));
    assert(m2.selected_workspace_loc() == Ok::<(int, int), ModelError>((wi, k)));
    assert(m2.selected_pane_loc() == Ok::<(int, int, int), ModelError>((wi, k, p)));
    let pane = m2.pane(wi, k, p);
    assert(pane.id == t.pane_id);
    let pane3 = PaneView { selected_surface: t.surface_id, ..pane };
    let ws3 = WorkspaceView { panes: ws2.panes.update(p, pane3), ..ws2 };
    let w3 = WindowView { workspaces: w2.workspaces.update(k, ws3), ..w2 };
    assert(m3.windows == m2.windows.update(wi, w3));
    lemma_first_where_update(m2.windows, wi, w3, wv_is(m.selected_window));
    lemma_first_where_update(w2.workspaces, k, ws3, wsv_is(t.workspace_id));
    lemma_first_where_update(ws2.panes, p, pane3, pv_is(t.pane_id));
    assert(m3.selected_pane_loc() == Ok::<(int, int, int), ModelError>((wi, k, p)));
    assert(m3.pane(wi, k, p) == pane3);
}

proof fn lemma_unique_by_shape(m: ModelView, m2: ModelView)
    requires
        unique_surface_ids(m),
        same_shape(m, m2),
    ensures
        unique_surface_ids(m2),
{
    assert forall|a: Pos, b: Pos|
        pos_valid(m2, a) && pos_valid(m2, b) && #[trigger] pos_id(m2, a) == #[trigger] pos_id(m2, b) implies a == b by {
        assert(pos_id(m, a) == pos_id(m, b));
    }
}

/// Jumping to the latest unread notification selects its workspace, pane and surface and
/// marks that surface read: no surface with its id is unread any more, and it is no longer
/// the latest unread target. With no unread target the jump is refused and nothing changes.
pub proof fn law_jump_reads_latest_unread(m: ModelView)
    requires
        unique_surface_ids(m),
    ensures
        m.latest_unread_target is None ==> jump_to_target(m) == (
            m,
            Err::<(), AppControllerError>(AppControllerError::NoLatestUnreadTarget),
        ),
        jump_to_target(m).1 is Ok ==> {
            let t = m.latest_unread_target.unwrap();
            let m2 = jump_to_target(m).0;
            &&& selected_ids(m2) == Ok::<(WorkspaceId, PaneId, SurfaceId), ModelError>((t.workspace_id, t.pane_id, t.surface_id))
            &&& forall|q: Pos| pos_valid(m2, q) && #[trigger] pos_id(m2, q) == t.surface_id ==> !pos_unread(m2, q)
            &&& m2.latest_unread_target matches Some(t2) ==> t2.surface_id != t.surface_id
        },
{
    if jump_to_target(m).1 is Ok {
        let t = m.latest_unread_target.unwrap();
        let m1 = m.select_workspace(t.workspace_id).0;
        let m2 = m1.select_pane(t.pane_id).0;
        let m3 = m2.select_surface(t.surface_id).0;
        let m4 = jump_to_target(m).0;
        assert(m4 == m3.mark_surface_read(t.surface_id).0);
        lemma_select_chain(m, t);
        lemma_mark_read_keeps_selection(m3, t.surface_id);
        lemma_shape_select_workspace(m, t.workspace_id);
        lemma_shape_select_pane(m1, t.pane_id);
        lemma_shape_select_surface(m2, t.surface_id);
        lemma_same_shape_trans(m, m1, m2);
        lemma_same_shape_trans(m, m2, m3);
        lemma_unique_by_shape(m, m3);
        lemma_shape_mark_surface_read(m3, t.surface_id);
        lemma_surface_loc(m3, t.surface_id);
        let (wi, k, p, s) = m3.surface_loc(t.surface_id).unwrap();
        let loc: Pos = (wi, k, p, s);
        assert(pos_valid(m3, loc) && pos_id(m3, loc) == t.surface_id);
        assert(!m4.surface(wi, k, p, s).unread);
        assert forall|q: Pos| pos_valid(m4, q) && #[trigger] pos_id(m4, q) == t.surface_id implies !pos_unread(m4, q) by {
            assert(pos_valid(m3, q) && pos_id(m3, q) == t.surface_id);
            assert(q == loc);
        }
        if let Some(t2) = m4.latest_unread_target {
            lemma_last_max_by_is_max(model_targets(m4), target_key());
            assert(model_targets(m4).contains(t2));
            lemma_model_targets_from(m4, t2);
            let q = choose|q: Pos| pos_valid(m4, q) && pos_unread(m4, q) && #[trigger] pos_target(m4, q) == t2;
            assert(pos_target(m4, q).surface_id == pos_id(m4, q));
        }
    }
}

/// Ctrl+Shift+C copies when there is a selection and Ctrl+Shift+V pastes, in either case of
/// the letter; Enter, Tab, Backspace and Escape write CR, TAB, DEL and ESC whatever the
/// modifiers; any other character typed with Ctrl or Alt does nothing.
pub proof fn law_shortcut_and_control_keys(e: TerminalKeyEvent)
    ensures
        e.key matches TerminalKey::Character(ch) && (ch == 'c' || ch == 'C') && e.ctrl && e.shift && e.selection_present
            ==> route_spec(e) == InputRouteView::CopySelection,
        e.key matches TerminalKey::Character(ch) && (ch == 'v' || ch == 'V') && e.ctrl && e.shift
            ==> route_spec(e) == InputRouteView::PasteClipboard,
        e.key matches TerminalKey::Character(ch) && (e.ctrl || e.alt) && !((ch == 'c' || ch == 'C') && e.ctrl && e.shift
            && e.selection_present) && !((ch == 'v' || ch == 'V') && e.ctrl && e.shift) ==> route_spec(e) == InputRouteView::Ignore,
        e.key == TerminalKey::Enter ==> route_spec(e) == InputRouteView::WriteBytes(seq![13u8]),
        e.key == TerminalKey::Tab ==> route_spec(e) == InputRouteView::WriteBytes(seq![9u8]),
        e.key == TerminalKey::Backspace ==> route_spec(e) == InputRouteView::WriteBytes(seq![0x7fu8]),
        e.key == TerminalKey::Escape ==> route_spec(e) == InputRouteView::WriteBytes(seq![0x1bu8]),
{
}

} // verus!
