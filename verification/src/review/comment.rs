//! The Markdown text of review comments.

use vstd::prelude::*;

use crate::review::actions::{group_views, ActionGroup, ActionGroupView};
use crate::text::{join, joined, texts};
use crate::text_map::TextMap;

verus! {

/// The reasons that are known for actions.
pub open spec fn reasons_of(m: Map<Seq<char>, String>) -> Map<Seq<char>, Seq<char>> {
    m.map_values(|s: String| s@)
}

/// One action as an item of a list, with the reason for it if there is one.
pub open spec fn action_item(action: Seq<char>, reasons: Map<Seq<char>, Seq<char>>) -> Seq<char> {
    if reasons.contains_key(action) {
        "\n- `"@ + action + "` — "@ + reasons[action]
    } else {
        "\n- `"@ + action + "`"@
    }
}

/// Actions as a list.
pub open spec fn action_list(
    actions: Seq<Seq<char>>,
    reasons: Map<Seq<char>, Seq<char>>,
) -> Seq<char>
    decreases actions.len(),
{
    if actions.len() == 0 {
        Seq::empty()
    } else {
        action_list(actions.drop_last(), reasons) + action_item(actions.last(), reasons)
    }
}

/// The actions that one call requires, under the expression of the call.
pub open spec fn group_text(g: ActionGroupView, reasons: Map<Seq<char>, Seq<char>>) -> Seq<char> {
    if g.key.len() == 0 {
        action_list(g.actions, reasons)
    } else {
        "`"@ + g.key + "`"@ + action_list(g.actions, reasons)
    }
}

pub open spec fn group_texts(
    gs: Seq<ActionGroupView>,
    reasons: Map<Seq<char>, Seq<char>>,
) -> Seq<Seq<char>> {
    gs.map_values(|g: ActionGroupView| group_text(g, reasons))
}

/// The part about new permissions.
pub open spec fn added_section(
    added: Seq<Seq<char>>,
    reasons: Map<Seq<char>, Seq<char>>,
    groups: Option<Seq<ActionGroupView>>,
) -> Seq<char> {
    "⚠️ **New IAM permissions required by this change:**\n"@ + (match groups {
        Some(gs) => "\n"@ + joined(group_texts(gs, reasons), "\n\n"@),
        None => action_list(added, reasons),
    })
        + "\n\n> These permissions were detected via static analysis of the added code.\n> Review carefully before granting."@
}

/// The part about permissions that are no longer needed.
pub open spec fn removed_section(removed: Seq<Seq<char>>) -> Seq<char> {
    "✅ **IAM permissions no longer required after this change:**\n"@ + action_list(
        removed,
        Map::empty(),
    )
}

/// The parts of a comment that have something to say.
pub open spec fn comment_parts(
    added: Seq<Seq<char>>,
    removed: Seq<Seq<char>>,
    reasons: Map<Seq<char>, Seq<char>>,
    groups: Option<Seq<ActionGroupView>>,
) -> Seq<Seq<char>> {
    (if added.len() > 0 {
        seq![added_section(added, reasons, groups)]
    } else {
        Seq::<Seq<char>>::empty()
    }) + (if removed.len() > 0 {
        seq![removed_section(removed)]
    } else {
        Seq::<Seq<char>>::empty()
    })
}

/// The text of a comment.
pub open spec fn comment_body(
    added: Seq<Seq<char>>,
    removed: Seq<Seq<char>>,
    reasons: Map<Seq<char>, Seq<char>>,
    groups: Option<Seq<ActionGroupView>>,
) -> Seq<char> {
    joined(comment_parts(added, removed, reasons, groups), "\n\n---\n\n"@)
}

/// Actions as a list, with the reasons for those that have one.
pub fn format_action_list(actions: &Vec<String>, explanations: &TextMap<String>) -> (r: String)
    ensures
        r@ == action_list(texts(actions@), reasons_of(explanations@)),
{
    let mut out = String::new();
    let ghost s = texts(actions@);
    let ghost m = reasons_of(explanations@);
    let mut i: usize = 0;
    assert(s.subrange(0, 0).len() == 0);
    while i < actions.len()
        invariant
            i <= actions@.len(),
            s == texts(actions@),
            m == reasons_of(explanations@),
            out@ == action_list(s.subrange(0, i as int), m),
        decreases actions@.len() - i,
    {
        let ghost u = s.subrange(0, i + 1);
        let ghost before = out@;
        assert(u.drop_last() =~= s.subrange(0, i as int));
        assert(u.last() == actions@[i as int]@);
        let action = actions[i].as_str();
        match explanations.get(action) {
            Some(reason) => {
                out.append("\n- `");
                out.append(action);
                out.append("` — ");
                out.append(reason.as_str());
            },
            None => {
                out.append("\n- `");
                out.append(action);
                out.append("`");
            },
        }
        assert(out@ =~= before + action_item(action@, m));
        i = i + 1;
    }
    assert(s.subrange(0, s.len() as int) =~= s);
    out
}

fn format_group(g: &ActionGroup, explanations: &TextMap<String>) -> (r: String)
    ensures
        r@ == group_text(g@, reasons_of(explanations@)),
{
    let list = format_action_list(&g.actions, explanations);
    if g.key.as_str().is_empty() {
        return list;
    }
    let mut r = "`".to_string();
    r.append(g.key.as_str());
    r.append("`");
    r.append(list.as_str());
    r
}

pub open spec fn opt_groups(o: Option<Vec<ActionGroup>>) -> Option<Seq<ActionGroupView>> {
    match o {
        Some(v) => Some(group_views(v@)),
        None => None,
    }
}

/// The text of a comment on added and removed actions. With groups, the added actions stand under
/// the calls that require them.
pub fn format_comment_body(
    added: &Vec<String>,
    removed: &Vec<String>,
    explanations: &TextMap<String>,
    added_groups: &Option<Vec<ActionGroup>>,
) -> (r: String)
    ensures
        r@ == comment_body(
            texts(added@),
            texts(removed@),
            reasons_of(explanations@),
            opt_groups(*added_groups),
        ),
{
    let mut parts: Vec<String> = Vec::new();
    let ghost m = reasons_of(explanations@);
    assert(texts(parts@) =~= Seq::<Seq<char>>::empty());
    assert(texts(added@).len() == added@.len());
    assert(texts(removed@).len() == removed@.len());
    if added.len() > 0 {
        let mut section = "⚠️ **New IAM permissions required by this change:**\n".to_string();
        match added_groups {
            Some(groups) => {
                let mut group_parts: Vec<String> = Vec::new();
                let ghost gs = group_views(groups@);
                let ghost all = group_texts(gs, m);
                let mut i: usize = 0;
                assert(texts(group_parts@) =~= all.subrange(0, 0));
                while i < groups.len()
                    invariant
                        i <= groups@.len(),
                        m == reasons_of(explanations@),
                        gs == group_views(groups@),
                        all == group_texts(gs, m),
                        texts(group_parts@) == all.subrange(0, i as int),
                    decreases groups@.len() - i,
                {
                    let ghost before = texts(group_parts@);
                    let part = format_group(&groups[i], explanations);
                    proof {
                        assert(gs[i as int] == groups@[i as int]@);
                        assert(all[i as int] == part@);
                        assert(all.subrange(0, i + 1) =~= all.subrange(0, i as int).push(
                            all[i as int],
                        ));
                    }
                    let ghost text = part@;
                    group_parts.push(part);
                    assert(texts(group_parts@) =~= before.push(text));
                    i = i + 1;
                }
                assert(all.subrange(0, all.len() as int) =~= all);
                section.append("\n");
                let lists = join(&group_parts, "\n\n");
                section.append(lists.as_str());
            },
            None => {
                let list = format_action_list(added, explanations);
                section.append(list.as_str());
            },
        }
        section.append(
            "\n\n> These permissions were detected via static analysis of the added code.\n> Review carefully before granting.",
        );
        assert(section@ =~= added_section(texts(added@), m, opt_groups(*added_groups)));
        let ghost text = section@;
        parts.push(section);
        assert(texts(parts@) =~= seq![text]);
    }
    let ghost first = texts(parts@);
    if removed.len() > 0 {
        let mut section = "✅ **IAM permissions no longer required after this change:**\n".to_string();
        let no_reasons: TextMap<String> = TextMap::new();
        let list = format_action_list(removed, &no_reasons);
        section.append(list.as_str());
        proof {
            assert(reasons_of(no_reasons@) =~= Map::<Seq<char>, Seq<char>>::empty());
        }
        let ghost text = section@;
        parts.push(section);
        assert(texts(parts@) =~= first + seq![text]);
    } else {
        assert(first + Seq::<Seq<char>>::empty() =~= first);
    }
    join(&parts, "\n\n---\n\n")
}

/// A comment without added and removed actions is empty.
pub proof fn nothing_to_say_is_empty(
    reasons: Map<Seq<char>, Seq<char>>,
    groups: Option<Seq<ActionGroupView>>,
)
    ensures
        comment_body(Seq::empty(), Seq::empty(), reasons, groups).len() == 0,
{
    let parts = comment_parts(Seq::empty(), Seq::empty(), reasons, groups);
    assert(parts.len() == 0);
}

} // verus!
