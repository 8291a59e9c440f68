//! The renderer: a pure projection of the session onto terminal draw
//! commands. The full screen is cleared and redrawn on every event; the
//! unverified terminal adapter only executes the commands in order.

use vstd::prelude::*;

use crate::item::ItemModel;
use crate::session::{cursor_fits, cursor_spec, Mode, Session, SessionModel};

verus! {

/// Model of one draw command.
pub ghost enum DrawCmdModel {
    ClearAll,
    Goto(int, int),
    Text(Seq<char>),
}

/// One terminal draw command: clear the whole screen, move the cursor to a
/// 1-based `(column, row)`, or write text at the cursor.
#[derive(Debug, Clone, PartialEq, Eq)]
pub enum DrawCmd {
    ClearAll,
    Goto(usize, usize),
    Text(String),
}

impl View for DrawCmd {
    type V = DrawCmdModel;

    open spec fn view(&self) -> DrawCmdModel {
        match self {
            DrawCmd::ClearAll => DrawCmdModel::ClearAll,
            DrawCmd::Goto(x, y) => DrawCmdModel::Goto(*x as int, *y as int),
            DrawCmd::Text(t) => DrawCmdModel::Text(t@),
        }
    }
}

/// The two-state status glyph drawn before an item's text.
pub open spec fn glyph(complete: bool) -> Seq<char> {
    if complete {
        seq!['-', '\u{2705}']
    } else {
        seq!['-', '\u{274C}']
    }
}

/// The commands that draw one item on its row.
pub open spec fn item_cmds(m: ItemModel, row: int) -> Seq<DrawCmdModel> {
    seq![
        DrawCmdModel::Goto(1, row),
        DrawCmdModel::Text(glyph(m.complete)),
        DrawCmdModel::Text(seq![' '] + m.text),
    ]
}

/// The commands that draw the items from `row0` down, one row each.
pub open spec fn items_cmds(items: Seq<ItemModel>, row0: int) -> Seq<DrawCmdModel>
    decreases items.len(),
{
    if items.len() == 0 {
        Seq::<DrawCmdModel>::empty()
    } else {
        item_cmds(items[0], row0) + items_cmds(items.drop_first(), row0 + 1)
    }
}

/// The full frame for a session: home the cursor, clear, draw every item, the
/// draft on the line below the list when one is being composed, and finally
/// move the cursor to the session's derived position.
pub open spec fn render_spec(s: SessionModel) -> Seq<DrawCmdModel> {
    seq![DrawCmdModel::Goto(1, 1), DrawCmdModel::ClearAll] + items_cmds(s.items, 1) + (
    if s.draft.len() > 0 {
        seq![
            DrawCmdModel::Goto(1, s.items.len() as int + 1),
            DrawCmdModel::Text(s.draft),
        ]
    } else {
        Seq::<DrawCmdModel>::empty()
    }) + seq![DrawCmdModel::Goto(cursor_spec(s).0, cursor_spec(s).1)]
}

/// Pushing a command extends the modelled command list by its model.
proof fn lemma_cmds_push(v: Seq<DrawCmd>, c: DrawCmd)
    ensures
        v.push(c).map_values(|x: DrawCmd| x@) == v.map_values(|x: DrawCmd| x@).push(c@),
{
    let f = |x: DrawCmd| x@;
    assert forall|i: int| 0 <= i < v.push(c).len() implies #[trigger] v.push(c).map_values(f)[i]
        == v.map_values(f).push(c@)[i] by {
        if i < v.len() {
            assert(v.push(c)[i] == v[i]);
        } else {
            assert(v.push(c)[i] == c);
        }
    }
    assert(v.push(c).map_values(f) =~= v.map_values(f).push(c@));
}

/// Drawing one more item appends its commands at the row after the prefix.
proof fn lemma_items_cmds_snoc(items: Seq<ItemModel>, m: ItemModel, row0: int)
    ensures
        items_cmds(items.push(m), row0) == items_cmds(items, row0) + item_cmds(
            m,
            row0 + items.len(),
        ),
    decreases items.len(),
{
    if items.len() == 0 {
        assert(items.push(m)[0] == m);
        assert(items.push(m).drop_first() =~= Seq::<ItemModel>::empty());
        assert(items_cmds(items.push(m), row0) == item_cmds(m, row0) + items_cmds(
            Seq::<ItemModel>::empty(),
            row0 + 1,
        ));
        assert(items_cmds(items.push(m), row0) =~= items_cmds(items, row0) + item_cmds(
            m,
            row0 + items.len(),
        ));
    } else {
        assert(items.push(m)[0] == items[0]);
        assert(items.push(m).drop_first() =~= items.drop_first().push(m));
        lemma_items_cmds_snoc(items.drop_first(), m, row0 + 1);
        assert(items_cmds(items.push(m), row0) == item_cmds(items[0], row0) + items_cmds(
            items.drop_first().push(m),
            row0 + 1,
        ));
        assert(items_cmds(items, row0) == item_cmds(items[0], row0) + items_cmds(
            items.drop_first(),
            row0 + 1,
        ));
        assert(items_cmds(items.push(m), row0) =~= items_cmds(items, row0) + item_cmds(
            m,
            row0 + items.len(),
        ));
    }
}

/// Projects the session onto the draw commands for one full redraw.
pub fn render(s: &Session) -> (cmds: Vec<DrawCmd>)
    requires
        s@.wf(),
        cursor_fits(s@),
    ensures
        cmds@.map_values(|c: DrawCmd| c@) == render_spec(s@),
{
    let ghost f = |x: DrawCmd| x@;
    let mut cmds: Vec<DrawCmd> = Vec::new();
    proof {
        assert(cmds@.map_values(f) =~= Seq::<DrawCmdModel>::empty());
    }
    cmds.push(DrawCmd::Goto(1, 1));
    proof {
        lemma_cmds_push(Seq::<DrawCmd>::empty(), DrawCmd::Goto(1, 1));
    }
    let ghost pre_clear = cmds@;
    cmds.push(DrawCmd::ClearAll);
    proof {
        lemma_cmds_push(pre_clear, DrawCmd::ClearAll);
        assert(cmds@.map_values(f) =~= seq![DrawCmdModel::Goto(1, 1), DrawCmdModel::ClearAll]);
        assert(s@.items.subrange(0, 0) =~= Seq::<ItemModel>::empty());
        assert(cmds@.map_values(f) =~= seq![DrawCmdModel::Goto(1, 1), DrawCmdModel::ClearAll]
            + items_cmds(s@.items.subrange(0, 0), 1));
    }
    let n = s.store.len();
    let mut i: usize = 0;
    while i < n
        invariant
            s@.wf(),
            cursor_fits(s@),
            n == s@.items.len(),
            0 <= i <= n,
            cmds@.map_values(|x: DrawCmd| x@) == seq![
                DrawCmdModel::Goto(1, 1),
                DrawCmdModel::ClearAll,
            ] + items_cmds(s@.items.subrange(0, i as int), 1),
        decreases n - i,
    {
        let it = s.store.get(i);
        let g: String = if it.complete {
            String::from_str("-\u{2705}")
        } else {
            String::from_str("-\u{274C}")
        };
        proof {
            reveal_strlit("-\u{2705}");
            reveal_strlit("-\u{274C}");
            assert(g@ =~= glyph(s@.items[i as int].complete));
        }
        let mut line: String = String::from_str(" ");
        line.append(it.text.as_str());
        proof {
            reveal_strlit(" ");
            assert(line@ =~= seq![' '] + s@.items[i as int].text);
        }
        let ghost c0 = cmds@;
        let goto_row = DrawCmd::Goto(1, i + 1);
        let ghost gotosnap = goto_row;
        cmds.push(goto_row);
        proof {
            lemma_cmds_push(c0, gotosnap);
        }
        let ghost c1 = cmds@;
        let ghost gsnap = g;
        cmds.push(DrawCmd::Text(g));
        proof {
            lemma_cmds_push(c1, DrawCmd::Text(gsnap));
        }
        let ghost c2 = cmds@;
        let ghost lsnap = line;
        cmds.push(DrawCmd::Text(line));
        proof {
            lemma_cmds_push(c2, DrawCmd::Text(lsnap));
            lemma_items_cmds_snoc(s@.items.subrange(0, i as int), s@.items[i as int], 1);
            assert(s@.items.subrange(0, i as int).push(s@.items[i as int]) =~= s@.items.subrange(
                0,
                i + 1,
            ));
            assert(item_cmds(s@.items[i as int], 1 + i as int) == seq![
                DrawCmdModel::Goto(1, i + 1),
                DrawCmdModel::Text(glyph(s@.items[i as int].complete)),
                DrawCmdModel::Text(seq![' '] + s@.items[i as int].text),
            ]);
            assert(cmds@.map_values(|x: DrawCmd| x@) =~= seq![
                DrawCmdModel::Goto(1, 1),
                DrawCmdModel::ClearAll,
            ] + items_cmds(s@.items.subrange(0, i + 1), 1));
        }
        i = i + 1;
    }
    proof {
        assert(s@.items.subrange(0, n as int) =~= s@.items);
    }
    if !s.draft.as_str().is_empty() {
        proof {
            assert(s@.mode is New);
        }
        let ghost c3 = cmds@;
        let goto_draft = DrawCmd::Goto(1, n + 1);
        let ghost draftsnap = goto_draft;
        cmds.push(goto_draft);
        proof {
            lemma_cmds_push(c3, draftsnap);
        }
        let d = s.draft.clone();
        let ghost c4 = cmds@;
        let ghost dsnap = d;
        cmds.push(DrawCmd::Text(d));
        proof {
            lemma_cmds_push(c4, DrawCmd::Text(dsnap));
        }
    }
    let cur = s.cursor();
    let ghost c5 = cmds@;
    cmds.push(DrawCmd::Goto(cur.0, cur.1));
    proof {
        lemma_cmds_push(c5, DrawCmd::Goto(cur.0, cur.1));
        assert(cmds@.map_values(|x: DrawCmd| x@) =~= render_spec(s@));
    }
    cmds
}

} // verus!
