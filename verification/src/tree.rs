//! The conversation tree as the terminal shows it: each message hangs under
//! its parent; a branch is the path from a leaf back to a root. Here are the
//! leaf that stands for the current branch, the user messages along a branch,
//! the visible tips of all branches, and the one-line texts that stand for a
//! message.
//!
//! A walk up the tree follows parents by id (where two messages share an id,
//! the later one is taken) and takes at most one step more than the tree has
//! messages; a tree without cycles is walked to its root within that.
use vstd::prelude::*;

use crate::message::{blocks_view, messages_view, Block, BlockView, ChatMessage, MessageView, Role};
use crate::request::{text_lines_exec, text_lines_of};
use crate::text::{append_chars, chars_of, eq_chars, is_blank, is_blank_exec, join, join_exec, string_of, words, words_exec};
use crate::tui::{short_id, spec_truncate, truncate, PickerAction, PickerItem};
use vstd::utf8::{decode_utf8, encode_utf8, is_char_boundary};

verus! {

/// The index of the last message with this id among the first `k`.
pub open spec fn find_last_id(tree: Seq<MessageView>, id: Seq<char>, k: int) -> Option<int>
    decreases k,
{
    if k <= 0 {
        None
    } else if tree[k - 1].id == id {
        Some(k - 1)
    } else {
        find_last_id(tree, id, k - 1)
    }
}

pub proof fn lemma_find_last_id(tree: Seq<MessageView>, id: Seq<char>, k: int)
    requires
        k <= tree.len(),
    ensures
        find_last_id(tree, id, k) matches Some(i) ==> 0 <= i < k && tree[i].id == id,
    decreases k,
{
    if k > 0 && tree[k - 1].id != id {
        lemma_find_last_id(tree, id, k - 1);
    }
}

/// The parent of a message in the tree, by index.
pub open spec fn parent_index(tree: Seq<MessageView>, m: MessageView) -> Option<int> {
    match m.parent_id {
        Some(p) => find_last_id(tree, p, tree.len() as int),
        None => None,
    }
}

/// The path from a message up towards the root, the message first, at most
/// `fuel` messages long.
pub open spec fn chain(tree: Seq<MessageView>, m: MessageView, fuel: nat) -> Seq<MessageView>
    decreases fuel,
{
    if fuel == 0 {
        Seq::empty()
    } else {
        seq![m] + match parent_index(tree, m) {
            Some(i) => if 0 <= i < tree.len() {
                chain(tree, tree[i], (fuel - 1) as nat)
            } else {
                Seq::empty()
            },
            None => Seq::empty(),
        }
    }
}

/// A message's branch: the path up from it, one step more than the tree has
/// messages at most.
pub open spec fn branch(tree: Seq<MessageView>, m: MessageView) -> Seq<MessageView> {
    chain(tree, m, tree.len() + 1)
}

/// The user messages of a path, in path order.
pub open spec fn users_of(s: Seq<MessageView>) -> Seq<MessageView>
    decreases s.len(),
{
    if s.len() == 0 {
        Seq::empty()
    } else {
        (if s[0].role is User {
            seq![s[0]]
        } else {
            Seq::empty()
        }) + users_of(s.drop_first())
    }
}

pub open spec fn refs_view(r: Seq<&ChatMessage>) -> Seq<MessageView> {
    Seq::new(r.len(), |i: int| r[i]@)
}

/// The index of the parent of a message in the tree (the later one where
/// two share its id).
fn parent_of(tree: &[ChatMessage], m: &ChatMessage) -> (r: Option<usize>)
    ensures
        match r {
            Some(i) => parent_index(messages_view(tree@), m@) == Some(i as int) && i < tree@.len(),
            None => parent_index(messages_view(tree@), m@) is None,
        },
{
    let ghost mv = messages_view(tree@);
    match &m.parent_id {
        None => None,
        Some(p) => {
            let pc = chars_of(p.as_str());
            let mut k = tree.len();
            while k > 0
                invariant
                    k <= tree@.len(),
                    mv == messages_view(tree@),
                    m@.parent_id == Some(p@),
                    pc@ == p@,
                    find_last_id(mv, p@, tree@.len() as int) == find_last_id(mv, p@, k as int),
                decreases k,
            {
                let c = chars_of(tree[k - 1].id.as_str());
                if eq_chars(c.as_slice(), pc.as_slice()) {
                    assert(mv[k - 1].id == p@);
                    return Some(k - 1);
                }
                k = k - 1;
            }
            None
        },
    }
}

/// The user messages on the branch that ends at `leaf`, newest first; none
/// without a leaf.
pub fn user_messages_on_branch<'a>(tree: &'a [ChatMessage], leaf: Option<&'a ChatMessage>) -> (r: Vec<
    &'a ChatMessage,
>)
    ensures
        refs_view(r@) == match leaf {
            Some(l) => users_of(branch(messages_view(tree@), l@)),
            None => Seq::empty(),
        },
{
    let ghost mv = messages_view(tree@);
    let mut out: Vec<&ChatMessage> = Vec::new();
    let m = match leaf {
        None => {
            assert(refs_view(out@) =~= Seq::<MessageView>::empty());
            return out;
        },
        Some(m) => m,
    };
    let n = tree.len();
    let ghost total = users_of(branch(mv, m@));
    match m.role {
        Role::User => out.push(m),
        _ => {},
    }
    let mut cur = parent_of(tree, m);
    let ghost rest = match parent_index(mv, m@) {
        Some(i) => chain(mv, mv[i], n as nat),
        None => Seq::<MessageView>::empty(),
    };
    assert(branch(mv, m@) == seq![m@] + rest);
    assert((seq![m@] + rest).drop_first() =~= rest);
    assert(refs_view(out@) + users_of(rest) =~= total);
    let mut steps: usize = 0;
    while steps < n && cur.is_some()
        invariant
            n == tree@.len(),
            mv == messages_view(tree@),
            steps <= n,
            refs_view(out@) + users_of(
                match cur {
                    Some(i) => chain(mv, mv[i as int], (n - steps) as nat),
                    None => Seq::<MessageView>::empty(),
                },
            ) == total,
            cur matches Some(i) ==> i < n,
        decreases n - steps,
    {
        let i = cur.unwrap();
        let x = &tree[i];
        assert(x@ == mv[i as int]);
        let next = parent_of(tree, x);
        let ghost before = refs_view(out@);
        let ghost tail = match next {
            Some(j) => chain(mv, mv[j as int], (n - steps - 1) as nat),
            None => Seq::<MessageView>::empty(),
        };
        let ghost here = chain(mv, mv[i as int], (n - steps) as nat);
        assert(here == seq![x@] + tail);
        assert(here.drop_first() =~= tail);
        match x.role {
            Role::User => {
                out.push(x);
                assert(refs_view(out@) =~= before.push(x@));
                assert(before + users_of(here) =~= refs_view(out@) + users_of(tail));
            },
            _ => {
                assert(before + users_of(here) =~= refs_view(out@) + users_of(tail));
            },
        }
        cur = next;
        steps = steps + 1;
    }
    assert(users_of(
        match cur {
            Some(i) => chain(mv, mv[i as int], (n - steps) as nat),
            None => Seq::<MessageView>::empty(),
        },
    ) =~= Seq::<MessageView>::empty());
    assert(refs_view(out@) =~= total);
    out
}

// ---------------------------------------------------------------------------
// What stands for a message
// ---------------------------------------------------------------------------

/// A message's whole text: its text blocks, one per line (for putting it
/// back into the input box).
pub fn message_text(message: &ChatMessage) -> (r: String)
    ensures
        r@ == text_lines_of(message@.content),
{
    let v = text_lines_exec(&message.content);
    string_of(v.as_slice())
}

/// A message the user sees as one of its own: it has blocks, and none of
/// them is a tool result (those show within the tool call's card).
pub open spec fn spec_user_visible(m: MessageView) -> bool {
    m.content.len() > 0 && forall|j: int| 0 <= j < m.content.len() ==> !(#[trigger] m.content[j] is ToolResult)
}

pub fn is_user_visible(message: &ChatMessage) -> (b: bool)
    ensures
        b == spec_user_visible(message@),
{
    if message.content.len() == 0 {
        return false;
    }
    let mut j: usize = 0;
    while j < message.content.len()
        invariant
            j <= message.content@.len(),
            message@.content == blocks_view(message.content@),
            forall|k: int| 0 <= k < j ==> !(#[trigger] message@.content[k] is ToolResult),
        decreases message.content@.len() - j,
    {
        match &message.content[j] {
            Block::ToolResult { .. } => {
                assert(message@.content[j as int] is ToolResult);
                return false;
            },
            _ => {},
        }
        j = j + 1;
    }
    true
}

/// The first text block that is not blank.
pub open spec fn first_filled_text(bs: Seq<BlockView>) -> Option<Seq<char>>
    decreases bs.len(),
{
    if bs.len() == 0 {
        None
    } else {
        match bs[0] {
            BlockView::Text(t) => if !is_blank(t) {
                Some(t)
            } else {
                first_filled_text(bs.drop_first())
            },
            _ => first_filled_text(bs.drop_first()),
        }
    }
}

/// The tool name of the first tool call.
pub open spec fn first_tool_name(bs: Seq<BlockView>) -> Option<Seq<char>>
    decreases bs.len(),
{
    if bs.len() == 0 {
        None
    } else {
        match bs[0] {
            BlockView::ToolUse(_, name, _) => Some(name),
            _ => first_tool_name(bs.drop_first()),
        }
    }
}

/// A role's name.
pub open spec fn role_name(r: Role) -> Seq<char> {
    match r {
        Role::User => "user"@,
        Role::Assistant => "assistant"@,
        Role::System => "system"@,
    }
}

/// The one-line text of a message before it is cut: its first text that is
/// not blank, with each run of white space made one space; else `⚙` and the
/// name of its first tool call; else its role's name.
pub open spec fn snippet_raw(m: MessageView) -> Seq<char> {
    match first_filled_text(m.content) {
        Some(t) => join(words(t), " "@),
        None => match first_tool_name(m.content) {
            Some(n) => "\u{2699} "@ + n,
            None => role_name(m.role),
        },
    }
}

/// The one-line text of a message, cut to 24 columns.
pub open spec fn spec_leaf_snippet(m: MessageView) -> Seq<char> {
    spec_truncate(snippet_raw(m), 24)
}

/// The one-line text of a message, as [`spec_leaf_snippet`] says.
pub fn leaf_snippet(message: &ChatMessage) -> (r: String)
    requires
        snippet_raw(message@).len() <= usize::MAX / 2,
    ensures
        r@ == spec_leaf_snippet(message@),
{
    let ghost bv = message@.content;
    let mut j: usize = 0;
    let mut found: Option<usize> = None;
    assert(bv.skip(0) =~= bv);
    while j < message.content.len() && found.is_none()
        invariant
            j <= message.content@.len(),
            bv == message@.content,
            bv == blocks_view(message.content@),
            found is None ==> first_filled_text(bv) == first_filled_text(bv.skip(j as int)),
            found matches Some(k) ==> k < bv.len() && bv[k as int] is Text && first_filled_text(bv) == Some(
                bv[k as int]->Text_0,
            ),
        decreases message.content@.len() - j,
    {
        assert(bv.skip(j as int).drop_first() =~= bv.skip(j + 1));
        assert(bv.skip(j as int)[0] == bv[j as int]);
        match &message.content[j] {
            Block::Text { text } => {
                let t = chars_of(text.as_str());
                if !is_blank_exec(t.as_slice()) {
                    found = Some(j);
                }
            },
            _ => {},
        }
        j = j + 1;
    }
    let raw: Vec<char> = match found {
        Some(k) => {
            let t = match &message.content[k] {
                Block::Text { text } => chars_of(text.as_str()),
                _ => Vec::new(),
            };
            let ws = words_exec(t.as_slice());
            let sp: Vec<char> = vec![' '];
            assert(sp@ =~= " "@) by {
                reveal_strlit(" ");
            }
            join_exec(&ws, sp.as_slice())
        },
        None => {
            assert(bv.skip(j as int) =~= Seq::<BlockView>::empty());
            let mut name: Option<Vec<char>> = None;
            let mut i: usize = 0;
            assert(bv.skip(0) =~= bv);
            while i < message.content.len() && name.is_none()
                invariant
                    i <= message.content@.len(),
                    bv == blocks_view(message.content@),
                    name is None ==> first_tool_name(bv) == first_tool_name(bv.skip(i as int)),
                    name matches Some(v) ==> first_tool_name(bv) == Some(v@),
                decreases message.content@.len() - i,
            {
                assert(bv.skip(i as int).drop_first() =~= bv.skip(i + 1));
                assert(bv.skip(i as int)[0] == bv[i as int]);
                match &message.content[i] {
                    Block::ToolUse { name: n, .. } => {
                        name = Some(chars_of(n.as_str()));
                    },
                    _ => {},
                }
                i = i + 1;
            }
            match name {
                Some(n) => {
                    let mut v = chars_of("\u{2699} ");
                    append_chars(&mut v, n.as_slice());
                    v
                },
                None => {
                    assert(bv.skip(i as int) =~= Seq::<BlockView>::empty());
                    match message.role {
                        Role::User => chars_of("user"),
                        Role::Assistant => chars_of("assistant"),
                        Role::System => chars_of("system"),
                    }
                },
            }
        },
    };
    let s = string_of(raw.as_slice());
    truncate(s.as_str(), 24)
}

/// A message's line in the history tree: a mark for its role, then its
/// one-line text.
pub open spec fn spec_tree_label(m: MessageView) -> Seq<char> {
    (match m.role {
        Role::User => "\u{203A}"@,
        Role::Assistant => "\u{25C6}"@,
        Role::System => "\u{B7}"@,
    }) + " "@ + spec_leaf_snippet(m)
}

pub fn tree_label(message: &ChatMessage) -> (r: String)
    requires
        snippet_raw(message@).len() <= usize::MAX / 2,
    ensures
        r@ == spec_tree_label(message@),
{
    let mut v = match message.role {
        Role::User => chars_of("\u{203A}"),
        Role::Assistant => chars_of("\u{25C6}"),
        Role::System => chars_of("\u{B7}"),
    };
    let sp = chars_of(" ");
    append_chars(&mut v, sp.as_slice());
    let snip = leaf_snippet(message);
    let sc = chars_of(snip.as_str());
    append_chars(&mut v, sc.as_slice());
    string_of(v.as_slice())
}

// ---------------------------------------------------------------------------
// Leaves and branches
// ---------------------------------------------------------------------------

/// Does some message of the tree hang under this id?
pub open spec fn has_child(tree: Seq<MessageView>, id: Seq<char>) -> bool {
    exists|i: int| 0 <= i < tree.len() && #[trigger] tree[i].parent_id == Some(id)
}

/// The index of the first message with this id.
pub open spec fn find_first_id(tree: Seq<MessageView>, id: Seq<char>, k: int) -> Option<int>
    decreases tree.len() - k,
{
    if k < 0 || k >= tree.len() {
        None
    } else if tree[k].id == id {
        Some(k)
    } else {
        find_first_id(tree, id, k + 1)
    }
}

/// The newest leaf among the first `k` messages: the latest creation time,
/// the later message of two equally new ones.
pub open spec fn newest_leaf(tree: Seq<MessageView>, k: int) -> Option<int>
    decreases k,
{
    if k <= 0 {
        None
    } else {
        let prev = newest_leaf(tree, k - 1);
        if has_child(tree, tree[k - 1].id) {
            prev
        } else {
            match prev {
                Some(b) => if tree[k - 1].created_at >= tree[b].created_at {
                    Some(k - 1)
                } else {
                    prev
                },
                None => Some(k - 1),
            }
        }
    }
}

/// The leaf that stands for the current branch: the one the server named,
/// while it is still a leaf; else the newest leaf.
pub open spec fn spec_branch_leaf(tree: Seq<MessageView>, preferred: Option<Seq<char>>) -> Option<int> {
    let newest = newest_leaf(tree, tree.len() as int);
    match preferred {
        Some(id) => match find_first_id(tree, id, 0) {
            Some(i) => if !has_child(tree, tree[i].id) {
                Some(i)
            } else {
                newest
            },
            None => newest,
        },
        None => newest,
    }
}

proof fn lemma_newest_leaf(tree: Seq<MessageView>, k: int)
    requires
        k <= tree.len(),
    ensures
        newest_leaf(tree, k) matches Some(i) ==> 0 <= i < k,
    decreases k,
{
    if k > 0 {
        lemma_newest_leaf(tree, k - 1);
    }
}

proof fn lemma_find_first_id(tree: Seq<MessageView>, id: Seq<char>, k: int)
    ensures
        find_first_id(tree, id, k) matches Some(i) ==> k <= i < tree.len() && tree[i].id == id,
    decreases tree.len() - k,
{
    if !(k < 0 || k >= tree.len()) && tree[k].id != id {
        lemma_find_first_id(tree, id, k + 1);
    }
}

fn has_child_exec(tree: &[ChatMessage], id: &[char]) -> (b: bool)
    ensures
        b == has_child(messages_view(tree@), id@),
{
    let ghost mv = messages_view(tree@);
    let mut i: usize = 0;
    while i < tree.len()
        invariant
            i <= tree@.len(),
            mv == messages_view(tree@),
            forall|k: int| 0 <= k < i ==> #[trigger] mv[k].parent_id != Some(id@),
        decreases tree@.len() - i,
    {
        match &tree[i].parent_id {
            Some(p) => {
                let pc = chars_of(p.as_str());
                if eq_chars(pc.as_slice(), id) {
                    assert(mv[i as int].parent_id == Some(id@));
                    return true;
                }
            },
            None => {},
        }
        assert(mv[i as int].parent_id != Some(id@));
        i = i + 1;
    }
    false
}

/// The leaf that stands for the current branch, as [`spec_branch_leaf`]
/// says; none in an empty tree.
pub fn branch_leaf<'a>(tree: &'a [ChatMessage], preferred: Option<&str>) -> (r: Option<&'a ChatMessage>)
    ensures
        match (r, spec_branch_leaf(messages_view(tree@), match preferred {
            Some(p) => Some(p@),
            None => None,
        })) {
            (Some(m), Some(i)) => 0 <= i < tree@.len() && m@ == messages_view(tree@)[i],
            (None, None) => true,
            _ => false,
        },
{
    let ghost mv = messages_view(tree@);
    let mut best: Option<usize> = None;
    let mut k: usize = 0;
    while k < tree.len()
        invariant
            k <= tree@.len(),
            mv == messages_view(tree@),
            match best {
                Some(b) => newest_leaf(mv, k as int) == Some(b as int),
                None => newest_leaf(mv, k as int) is None,
            },
        decreases tree@.len() - k,
    {
        proof {
            lemma_newest_leaf(mv, k as int);
        }
        let id = chars_of(tree[k].id.as_str());
        if !has_child_exec(tree, id.as_slice()) {
            best = match best {
                Some(b) => if tree[k].created_at >= tree[b].created_at {
                    Some(k)
                } else {
                    Some(b)
                },
                None => Some(k),
            };
        }
        k = k + 1;
    }
    proof {
        lemma_newest_leaf(mv, tree@.len() as int);
    }
    match preferred {
        Some(p) => {
            let pc = chars_of(p);
            let mut i: usize = 0;
            let mut hit: Option<usize> = None;
            while i < tree.len() && hit.is_none()
                invariant
                    i <= tree@.len(),
                    mv == messages_view(tree@),
                    pc@ == p@,
                    hit is None ==> find_first_id(mv, p@, 0) == find_first_id(mv, p@, i as int),
                    hit matches Some(h) ==> find_first_id(mv, p@, 0) == Some(h as int) && h < tree@.len(),
                decreases tree@.len() - i,
            {
                let c = chars_of(tree[i].id.as_str());
                if eq_chars(c.as_slice(), pc.as_slice()) {
                    hit = Some(i);
                }
                i = i + 1;
            }
            match hit {
                Some(h) => {
                    proof {
                        lemma_find_first_id(mv, p@, 0);
                    }
                    let c = chars_of(tree[h].id.as_str());
                    if !has_child_exec(tree, c.as_slice()) {
                        return Some(&tree[h]);
                    }
                },
                None => {},
            }
        },
        None => {},
    }
    match best {
        Some(b) => Some(&tree[b]),
        None => None,
    }
}

/// How many messages a branch has, from a message up to the root.
pub fn branch_len(tree: &[ChatMessage], tip: &ChatMessage) -> (n: usize)
    requires
        tree@.len() < usize::MAX,
    ensures
        n == branch(messages_view(tree@), tip@).len(),
{
    let ghost mv = messages_view(tree@);
    let n = tree.len();
    let mut cur = parent_of(tree, tip);
    let ghost rest = match parent_index(mv, tip@) {
        Some(i) => chain(mv, mv[i], n as nat),
        None => Seq::<MessageView>::empty(),
    };
    assert(branch(mv, tip@) == seq![tip@] + rest);
    let mut steps: usize = 0;
    while steps < n && cur.is_some()
        invariant
            n == tree@.len(),
            n < usize::MAX,
            mv == messages_view(tree@),
            steps <= n,
            steps + match cur {
                Some(i) => chain(mv, mv[i as int], (n - steps) as nat).len(),
                None => 0,
            } == rest.len(),
            cur matches Some(i) ==> i < n,
        decreases n - steps,
    {
        let i = cur.unwrap();
        let x = &tree[i];
        assert(x@ == mv[i as int]);
        let next = parent_of(tree, x);
        cur = next;
        steps = steps + 1;
    }
    steps + 1
}

// ---------------------------------------------------------------------------
// The tips of all branches
// ---------------------------------------------------------------------------

/// The first message of a path that the user sees.
pub open spec fn visible_in(s: Seq<MessageView>) -> Option<MessageView>
    decreases s.len(),
{
    if s.len() == 0 {
        None
    } else if spec_user_visible(s[0]) {
        Some(s[0])
    } else {
        visible_in(s.drop_first())
    }
}

pub open spec fn has_id(s: Seq<MessageView>, id: Seq<char>) -> bool {
    exists|j: int| 0 <= j < s.len() && #[trigger] s[j].id == id
}

/// For each leaf among the first `k` messages, in tree order, the nearest
/// message up its branch that the user sees; each such message once.
pub open spec fn tips_upto(tree: Seq<MessageView>, k: int) -> Seq<MessageView>
    decreases k,
{
    if k <= 0 || k > tree.len() {
        Seq::empty()
    } else {
        let t = tips_upto(tree, k - 1);
        let m = tree[k - 1];
        if has_child(tree, m.id) {
            t
        } else {
            match visible_in(branch(tree, m)) {
                Some(v) => if has_id(t, v.id) {
                    t
                } else {
                    t.push(v)
                },
                None => t,
            }
        }
    }
}

/// Where a message goes into a list that is newest first: after every
/// message at least as new.
pub open spec fn insert_pos(s: Seq<MessageView>, x: MessageView, p: int) -> int
    decreases s.len() - p,
{
    if p < 0 || p >= s.len() {
        s.len() as int
    } else if s[p].created_at < x.created_at {
        p
    } else {
        insert_pos(s, x, p + 1)
    }
}

/// Newest first; of two equally new, the earlier first (a stable sort).
pub open spec fn sort_newest_first(s: Seq<MessageView>) -> Seq<MessageView>
    decreases s.len(),
{
    if s.len() == 0 {
        s
    } else {
        let t = sort_newest_first(s.drop_last());
        t.insert(insert_pos(t, s.last(), 0), s.last())
    }
}

/// The tips of all branches, newest first.
pub open spec fn spec_branch_tips(tree: Seq<MessageView>) -> Seq<MessageView> {
    sort_newest_first(tips_upto(tree, tree.len() as int))
}

proof fn lemma_insert_pos(s: Seq<MessageView>, x: MessageView, p: int)
    requires
        0 <= p <= s.len(),
    ensures
        p <= insert_pos(s, x, p) <= s.len(),
    decreases s.len() - p,
{
    if p < s.len() && s[p].created_at >= x.created_at {
        lemma_insert_pos(s, x, p + 1);
    }
}

proof fn lemma_sort_len(s: Seq<MessageView>)
    ensures
        sort_newest_first(s).len() == s.len(),
    decreases s.len(),
{
    if s.len() > 0 {
        lemma_sort_len(s.drop_last());
        lemma_insert_pos(sort_newest_first(s.drop_last()), s.last(), 0);
    }
}

/// The nearest message up a branch that the user sees.
fn visible_ancestor<'a>(tree: &'a [ChatMessage], m: &'a ChatMessage) -> (r: Option<&'a ChatMessage>)
    ensures
        match r {
            Some(x) => visible_in(branch(messages_view(tree@), m@)) == Some(x@),
            None => visible_in(branch(messages_view(tree@), m@)) is None,
        },
{
    let ghost mv = messages_view(tree@);
    let n = tree.len();
    let ghost rest = match parent_index(mv, m@) {
        Some(i) => chain(mv, mv[i], n as nat),
        None => Seq::<MessageView>::empty(),
    };
    let mut cur = parent_of(tree, m);
    assert(branch(mv, m@) == seq![m@] + rest);
    assert((seq![m@] + rest).drop_first() =~= rest);
    if is_user_visible(m) {
        return Some(m);
    }
    assert(visible_in(branch(mv, m@)) == visible_in(rest));
    let mut steps: usize = 0;
    while steps < n && cur.is_some()
        invariant
            n == tree@.len(),
            mv == messages_view(tree@),
            steps <= n,
            visible_in(branch(mv, m@)) == visible_in(rest),
            visible_in(rest) == visible_in(
                match cur {
                    Some(i) => chain(mv, mv[i as int], (n - steps) as nat),
                    None => Seq::<MessageView>::empty(),
                },
            ),
            cur matches Some(i) ==> i < n,
        decreases n - steps,
    {
        let i = cur.unwrap();
        let x = &tree[i];
        assert(x@ == mv[i as int]);
        let next = parent_of(tree, x);
        let ghost tail = match next {
            Some(j) => chain(mv, mv[j as int], (n - steps - 1) as nat),
            None => Seq::<MessageView>::empty(),
        };
        let ghost here = chain(mv, mv[i as int], (n - steps) as nat);
        assert(here == seq![x@] + tail);
        assert(here.drop_first() =~= tail);
        if is_user_visible(x) {
            return Some(x);
        }
        cur = next;
        steps = steps + 1;
    }
    None
}

/// The tips of all branches: each leaf backed up to the nearest message the
/// user sees, each such message once, newest first (as
/// [`spec_branch_tips`] says).
pub fn branch_tips<'a>(tree: &'a [ChatMessage]) -> (r: Vec<&'a ChatMessage>)
    ensures
        refs_view(r@) == spec_branch_tips(messages_view(tree@)),
{
    let ghost mv = messages_view(tree@);
    let mut tips: Vec<&ChatMessage> = Vec::new();
    let mut k: usize = 0;
    assert(refs_view(tips@) =~= Seq::<MessageView>::empty());
    while k < tree.len()
        invariant
            k <= tree@.len(),
            mv == messages_view(tree@),
            refs_view(tips@) == tips_upto(mv, k as int),
        decreases tree@.len() - k,
    {
        let m = &tree[k];
        assert(m@ == mv[k as int]);
        let id = chars_of(m.id.as_str());
        if !has_child_exec(tree, id.as_slice()) {
            match visible_ancestor(tree, m) {
                Some(v) => {
                    let vid = chars_of(v.id.as_str());
                    let ghost tv = refs_view(tips@);
                    let mut seen = false;
                    let mut j: usize = 0;
                    while j < tips.len()
                        invariant
                            j <= tips@.len(),
                            tv == refs_view(tips@),
                            vid@ == v@.id,
                            seen <==> exists|q: int| 0 <= q < j && #[trigger] tv[q].id == v@.id,
                        decreases tips@.len() - j,
                    {
                        let c = chars_of(tips[j].id.as_str());
                        if eq_chars(c.as_slice(), vid.as_slice()) {
                            assert(tv[j as int].id == v@.id);
                            seen = true;
                        }
                        j = j + 1;
                    }
                    if !seen {
                        tips.push(v);
                        assert(refs_view(tips@) =~= tv.push(v@));
                    }
                },
                None => {},
            }
        }
        k = k + 1;
    }
    let ghost unsorted = refs_view(tips@);
    assert(tips_upto(mv, tree@.len() as int) == unsorted);
    let mut out: Vec<&ChatMessage> = Vec::new();
    let mut i: usize = 0;
    assert(unsorted.take(0) =~= Seq::<MessageView>::empty());
    assert(refs_view(out@) =~= Seq::<MessageView>::empty());
    while i < tips.len()
        invariant
            i <= tips@.len(),
            unsorted == refs_view(tips@),
            refs_view(out@) == sort_newest_first(unsorted.take(i as int)),
        decreases tips@.len() - i,
    {
        let x = tips[i];
        let ghost ov = refs_view(out@);
        proof {
            lemma_sort_len(unsorted.take(i as int));
        }
        let mut p: usize = 0;
        while p < out.len() && out[p].created_at >= x.created_at
            invariant
                p <= out@.len(),
                ov == refs_view(out@),
                insert_pos(ov, x@, 0) == insert_pos(ov, x@, p as int),
            decreases out@.len() - p,
        {
            p = p + 1;
        }
        out.insert(p, x);
        assert(unsorted.take(i + 1).drop_last() =~= unsorted.take(i as int));
        assert(unsorted.take(i + 1).last() == x@);
        assert(refs_view(out@) =~= ov.insert(p as int, x@));
        i = i + 1;
    }
    assert(unsorted.take(i as int) =~= unsorted);
    out
}

/// Newest first.
pub open spec fn newest_first(s: Seq<MessageView>) -> bool {
    forall|i: int, j: int| 0 <= i < j < s.len() ==> (#[trigger] s[i]).created_at >= (#[trigger] s[j]).created_at
}

/// No two messages share an id.
pub open spec fn distinct_ids(s: Seq<MessageView>) -> bool {
    forall|i: int, j: int| 0 <= i < j < s.len() ==> (#[trigger] s[i]).id != (#[trigger] s[j]).id
}

proof fn lemma_visible_in(s: Seq<MessageView>)
    ensures
        visible_in(s) matches Some(v) ==> spec_user_visible(v),
    decreases s.len(),
{
    if s.len() > 0 && !spec_user_visible(s[0]) {
        lemma_visible_in(s.drop_first());
    }
}

proof fn lemma_tips_upto(tree: Seq<MessageView>, k: int)
    ensures
        distinct_ids(tips_upto(tree, k)),
        forall|q: int| 0 <= q < tips_upto(tree, k).len() ==> spec_user_visible(#[trigger] tips_upto(tree, k)[q]),
    decreases k,
{
    if k > 0 && k <= tree.len() {
        lemma_tips_upto(tree, k - 1);
        lemma_visible_in(branch(tree, tree[k - 1]));
        let t = tips_upto(tree, k - 1);
        match visible_in(branch(tree, tree[k - 1])) {
            Some(v) => {
                if !has_id(t, v.id) {
                    assert forall|i: int, j: int| 0 <= i < j < t.push(v).len() implies (#[trigger] t.push(v)[i]).id
                        != (#[trigger] t.push(v)[j]).id by {
                        if j == t.len() {
                            assert(t[i].id != v.id);
                        }
                    }
                }
            },
            None => {},
        }
    }
}

proof fn lemma_insert_pos_bounds(s: Seq<MessageView>, x: MessageView, p: int)
    requires
        0 <= p <= s.len(),
        forall|k: int| 0 <= k < p ==> (#[trigger] s[k]).created_at >= x.created_at,
    ensures
        p <= insert_pos(s, x, p) <= s.len(),
        forall|k: int| 0 <= k < insert_pos(s, x, p) ==> (#[trigger] s[k]).created_at >= x.created_at,
        insert_pos(s, x, p) < s.len() ==> s[insert_pos(s, x, p)].created_at < x.created_at,
    decreases s.len() - p,
{
    if p < s.len() && s[p].created_at >= x.created_at {
        lemma_insert_pos_bounds(s, x, p + 1);
    }
}

proof fn lemma_sort_newest_first(s: Seq<MessageView>)
    ensures
        sort_newest_first(s).len() == s.len(),
        newest_first(sort_newest_first(s)),
        forall|k: int|
            0 <= k < sort_newest_first(s).len() ==> exists|j: int|
                0 <= j < s.len() && s[j] == #[trigger] sort_newest_first(s)[k],
        distinct_ids(s) ==> distinct_ids(sort_newest_first(s)),
    decreases s.len(),
{
    if s.len() > 0 {
        let d = s.drop_last();
        let x = s.last();
        lemma_sort_newest_first(d);
        let t = sort_newest_first(d);
        lemma_insert_pos_bounds(t, x, 0);
        let q = insert_pos(t, x, 0);
        let r = t.insert(q, x);
        assert(r == sort_newest_first(s));
        assert forall|i: int, j: int| 0 <= i < j < r.len() implies (#[trigger] r[i]).created_at >= (
        #[trigger] r[j]).created_at by {
            if j < q {
            } else if j == q {
            } else if i < q {
                assert(t[i].created_at >= x.created_at);
            } else if i == q {
                assert(r[j] == t[j - 1]);
                if q < t.len() {
                    assert(t[q].created_at >= t[j - 1].created_at || q == j - 1);
                }
            } else {
                assert(r[i] == t[i - 1] && r[j] == t[j - 1]);
            }
        }
        assert forall|k: int| 0 <= k < r.len() implies exists|j: int| 0 <= j < s.len() && s[j] == #[trigger] r[k] by {
            if k < q {
                let j = choose|j: int| 0 <= j < d.len() && d[j] == #[trigger] t[k];
                assert(s[j] == r[k]);
            } else if k == q {
                assert(s[s.len() - 1] == r[k]);
            } else {
                let j = choose|j: int| 0 <= j < d.len() && d[j] == #[trigger] t[k - 1];
                assert(s[j] == r[k]);
            }
        }
        if distinct_ids(s) {
            assert(distinct_ids(d));
            assert forall|i: int| 0 <= i < t.len() implies (#[trigger] t[i]).id != x.id by {
                let j = choose|j: int| 0 <= j < d.len() && d[j] == #[trigger] t[i];
                assert(s[j] == d[j]);
                assert(s[j].id != s[s.len() - 1].id);
            }
            assert forall|i: int, j: int| 0 <= i < j < r.len() implies (#[trigger] r[i]).id != (#[trigger] r[j]).id by {
                if i == q {
                    assert(r[j] == t[j - 1]);
                } else if j == q {
                    assert(r[i] == t[i]);
                } else if i < q && j < q {
                } else if i < q {
                    assert(r[j] == t[j - 1]);
                } else {
                    assert(r[i] == t[i - 1] && r[j] == t[j - 1]);
                }
            }
        }
    }
}

/// The tips of all branches are messages the user sees, newest first, and
/// no message is a tip twice.
pub proof fn lemma_branch_tips_wellformed(tree: Seq<MessageView>)
    ensures
        newest_first(spec_branch_tips(tree)),
        distinct_ids(spec_branch_tips(tree)),
        forall|k: int| 0 <= k < spec_branch_tips(tree).len() ==> spec_user_visible(#[trigger] spec_branch_tips(tree)[k]),
{
    let u = tips_upto(tree, tree.len() as int);
    lemma_tips_upto(tree, tree.len() as int);
    lemma_sort_newest_first(u);
    assert forall|k: int| 0 <= k < spec_branch_tips(tree).len() implies spec_user_visible(
        #[trigger] spec_branch_tips(tree)[k],
    ) by {
        let j = choose|j: int| 0 <= j < u.len() && u[j] == #[trigger] sort_newest_first(u)[k];
        assert(spec_user_visible(u[j]));
    }
}

// ---------------------------------------------------------------------------
// Resending an earlier message
// ---------------------------------------------------------------------------

/// An id as the terminal shows it: its first 8 bytes where they end on a
/// character boundary, else the whole id.
pub open spec fn spec_short_id(id: Seq<char>) -> Seq<char> {
    if is_char_boundary(encode_utf8(id), 8) {
        decode_utf8(encode_utf8(id).subrange(0, 8))
    } else {
        id
    }
}

/// The note beside a message that can be resent: where the new branch will
/// grow from, or that the first message has nowhere to fork from.
pub open spec fn fork_detail(m: MessageView) -> Seq<char> {
    match m.parent_id {
        Some(p) => spec_short_id(m.id) + " \u{B7} \u{4ECE} "@ + spec_short_id(p) + " \u{5904}\u{91CD}\u{65B0}\u{5F00}\u{59CB}"@,
        None => spec_short_id(m.id) + " \u{B7} \u{9996}\u{6761}\u{6D88}\u{606F}\u{FF0C}\u{65E0}\u{5904}\u{53EF}\u{5206}\u{53C9}"@,
    }
}

/// A resend item: the message's one-line text, the note, and the action that
/// puts its whole text back and forks under its parent.
pub open spec fn fork_item_meets(item: PickerItem, m: MessageView) -> bool {
    &&& item.label@ == spec_leaf_snippet(m)
    &&& item.detail@ == fork_detail(m)
    &&& !item.current
    &&& match item.action {
        PickerAction::ForkFrom { text, parent_id, label } => {
            &&& text@ == text_lines_of(m.content)
            &&& label@ == spec_leaf_snippet(m)
            &&& match parent_id {
                Some(p) => m.parent_id == Some(p@),
                None => m.parent_id is None,
            }
        },
        _ => false,
    }
}

/// The items of the resend picker: one per user message on the branch
/// that ends at `leaf`, newest first.
pub fn fork_items(tree: &[ChatMessage], leaf: Option<&ChatMessage>) -> (r: Vec<PickerItem>)
    requires
        leaf matches Some(l) ==> forall|k: int|
            0 <= k < users_of(branch(messages_view(tree@), l@)).len() ==> snippet_raw(
                #[trigger] users_of(branch(messages_view(tree@), l@))[k],
            ).len() <= usize::MAX / 2,
    ensures
        r@.len() == match leaf {
            Some(l) => users_of(branch(messages_view(tree@), l@)).len(),
            None => 0,
        },
        leaf matches Some(l) ==> forall|k: int|
            0 <= k < r@.len() ==> fork_item_meets(#[trigger] r@[k], users_of(branch(messages_view(tree@), l@))[k]),
{
    let users = user_messages_on_branch(tree, leaf);
    let ghost uv = refs_view(users@);
    let mut out: Vec<PickerItem> = Vec::new();
    let mut i: usize = 0;
    while i < users.len()
        invariant
            i <= users@.len(),
            uv == refs_view(users@),
            forall|k: int| 0 <= k < uv.len() ==> snippet_raw(#[trigger] uv[k]).len() <= usize::MAX / 2,
            out@.len() == i,
            forall|k: int| 0 <= k < i ==> fork_item_meets(#[trigger] out@[k], uv[k]),
        decreases users@.len() - i,
    {
        let m = users[i];
        assert(m@ == uv[i as int]);
        let mut d = chars_of(short_id(m.id.as_str()));
        match &m.parent_id {
            Some(p) => {
                let a = chars_of(" \u{B7} \u{4ECE} ");
                append_chars(&mut d, a.as_slice());
                let b = chars_of(short_id(p.as_str()));
                append_chars(&mut d, b.as_slice());
                let c = chars_of(" \u{5904}\u{91CD}\u{65B0}\u{5F00}\u{59CB}");
                append_chars(&mut d, c.as_slice());
            },
            None => {
                let a = chars_of(" \u{B7} \u{9996}\u{6761}\u{6D88}\u{606F}\u{FF0C}\u{65E0}\u{5904}\u{53EF}\u{5206}\u{53C9}");
                append_chars(&mut d, a.as_slice());
            },
        }
        let item = PickerItem {
            label: leaf_snippet(m),
            detail: string_of(d.as_slice()),
            current: false,
            action: PickerAction::ForkFrom {
                text: message_text(m),
                parent_id: match &m.parent_id {
                    Some(p) => Some(p.clone()),
                    None => None,
                },
                label: leaf_snippet(m),
            },
        };
        out.push(item);
        i = i + 1;
    }
    assert(uv.len() == users@.len());
    out
}

// ---------------------------------------------------------------------------
// The history tree
// ---------------------------------------------------------------------------

/// One line of the history tree.
#[derive(Debug, Clone, PartialEq, Eq)]
pub struct TreeItem {
    pub id: String,
    /// The connecting lines, ancestors' indentation included.
    pub prefix: String,
    pub label: String,
    /// Is the message on the current branch?
    pub on_current: bool,
    /// Does the message end a branch?
    pub is_leaf: bool,
}

/// A line as text: id, prefix, label, on the current branch, a leaf.
pub open spec fn item_view(t: TreeItem) -> (Seq<char>, Seq<char>, Seq<char>, bool, bool) {
    (t.id@, t.prefix@, t.label@, t.on_current, t.is_leaf)
}

/// Where a message hangs in the picture: under its parent where the tree
/// has it; at the top otherwise.
pub open spec fn hang_key(tree: Seq<MessageView>, m: MessageView) -> Option<Seq<char>> {
    match m.parent_id {
        Some(p) => if has_id(tree, p) {
            Some(p)
        } else {
            None
        },
        None => None,
    }
}

/// The indices, in tree order, of the messages among the first `k` that
/// hang under `key`.
pub open spec fn kids_upto(tree: Seq<MessageView>, key: Option<Seq<char>>, k: int) -> Seq<int>
    decreases k,
{
    if k <= 0 || k > tree.len() {
        Seq::empty()
    } else {
        let t = kids_upto(tree, key, k - 1);
        if hang_key(tree, tree[k - 1]) == key {
            t.push(k - 1)
        } else {
            t
        }
    }
}

/// Where an index goes into a list that is oldest first: after every
/// message no newer.
pub open spec fn insert_pos_asc(tree: Seq<MessageView>, s: Seq<int>, x: int, p: int) -> int
    decreases s.len() - p,
{
    if p < 0 || p >= s.len() {
        s.len() as int
    } else if tree[s[p]].created_at > tree[x].created_at {
        p
    } else {
        insert_pos_asc(tree, s, x, p + 1)
    }
}

/// Oldest first; of two equally old, the earlier first (a stable sort).
pub open spec fn sort_oldest_first(tree: Seq<MessageView>, s: Seq<int>) -> Seq<int>
    decreases s.len(),
{
    if s.len() == 0 {
        s
    } else {
        let t = sort_oldest_first(tree, s.drop_last());
        t.insert(insert_pos_asc(tree, t, s.last(), 0), s.last())
    }
}

/// The messages that hang under `key`, oldest first.
pub open spec fn kids(tree: Seq<MessageView>, key: Option<Seq<char>>) -> Seq<int> {
    sort_oldest_first(tree, kids_upto(tree, key, tree.len() as int))
}

/// The current branch: up from the current leaf (by id, the later message
/// where two share it).
pub open spec fn current_path(tree: Seq<MessageView>, leaf: Option<Seq<char>>) -> Seq<MessageView> {
    match leaf {
        Some(id) => match find_last_id(tree, id, tree.len() as int) {
            Some(i) => branch(tree, tree[i]),
            None => Seq::empty(),
        },
        None => Seq::empty(),
    }
}

pub open spec fn connector(prefix: Seq<char>, is_last: bool) -> Seq<char> {
    if prefix.len() == 0 {
        ""@
    } else if is_last {
        "\u{2514}\u{2500} "@
    } else {
        "\u{251C}\u{2500} "@
    }
}

pub open spec fn child_prefix(prefix: Seq<char>, is_last: bool) -> Seq<char> {
    prefix + if is_last {
        "   "@
    } else {
        "\u{2502}  "@
    }
}

/// The lines of a message and, below it, of everything that hangs under
/// it, depth first, `fuel` levels deep at most.
pub open spec fn walk_node(
    tree: Seq<MessageView>,
    path: Seq<MessageView>,
    i: int,
    prefix: Seq<char>,
    is_last: bool,
    fuel: nat,
) -> Seq<(Seq<char>, Seq<char>, Seq<char>, bool, bool)>
    decreases fuel, 0int, 0int,
{
    if fuel == 0 || i < 0 || i >= tree.len() {
        Seq::empty()
    } else {
        let m = tree[i];
        let ks = kids(tree, Some(m.id));
        seq![(m.id, prefix + connector(prefix, is_last), spec_tree_label(m), has_id(path, m.id), ks.len() == 0)]
            + walk_list(tree, path, ks, 0, child_prefix(prefix, is_last), (fuel - 1) as nat)
    }
}

/// The lines of the messages `ks[j..]`, each with what hangs under it.
pub open spec fn walk_list(
    tree: Seq<MessageView>,
    path: Seq<MessageView>,
    ks: Seq<int>,
    j: int,
    prefix: Seq<char>,
    fuel: nat,
) -> Seq<(Seq<char>, Seq<char>, Seq<char>, bool, bool)>
    decreases fuel, 1int, ks.len() - j,
{
    if j < 0 || j >= ks.len() {
        Seq::empty()
    } else {
        walk_node(tree, path, ks[j], prefix, j + 1 == ks.len(), fuel) + walk_list(tree, path, ks, j + 1, prefix, fuel)
    }
}

/// The history tree as lines: from the top-level messages, oldest first,
/// each followed depth first by what hangs under it, marked where it is on
/// the current branch.
pub open spec fn spec_tree_items(tree: Seq<MessageView>, current_leaf: Option<Seq<char>>) -> Seq<
    (Seq<char>, Seq<char>, Seq<char>, bool, bool),
> {
    walk_list(tree, current_path(tree, current_leaf), kids(tree, None), 0, Seq::empty(), tree.len())
}

fn has_id_exec(tree: &[ChatMessage], id: &[char]) -> (b: bool)
    ensures
        b == has_id(messages_view(tree@), id@),
{
    let ghost mv = messages_view(tree@);
    let mut i: usize = 0;
    while i < tree.len()
        invariant
            i <= tree@.len(),
            mv == messages_view(tree@),
            forall|k: int| 0 <= k < i ==> #[trigger] mv[k].id != id@,
        decreases tree@.len() - i,
    {
        let c = chars_of(tree[i].id.as_str());
        if eq_chars(c.as_slice(), id) {
            assert(mv[i as int].id == id@);
            return true;
        }
        i = i + 1;
    }
    false
}

fn hang_key_exec(tree: &[ChatMessage], m: &ChatMessage) -> (r: Option<Vec<char>>)
    ensures
        match r {
            Some(v) => hang_key(messages_view(tree@), m@) == Some(v@),
            None => hang_key(messages_view(tree@), m@) is None,
        },
{
    match &m.parent_id {
        Some(p) => {
            let pc = chars_of(p.as_str());
            if has_id_exec(tree, pc.as_slice()) {
                Some(pc)
            } else {
                None
            }
        },
        None => None,
    }
}

/// The indices of the messages that hang under `key`, oldest first.
fn kids_exec(tree: &[ChatMessage], key: &Option<Vec<char>>) -> (r: Vec<usize>)
    ensures
        Seq::new(r@.len(), |k: int| r@[k] as int) == kids(
            messages_view(tree@),
            match key {
                Some(v) => Some(v@),
                None => None,
            },
        ),
        forall|k: int| 0 <= k < r@.len() ==> r@[k] < tree@.len(),
{
    let ghost mv = messages_view(tree@);
    let ghost kv = match key {
        Some(v) => Some(v@),
        None => None,
    };
    let mut found: Vec<usize> = Vec::new();
    let mut i: usize = 0;
    assert(Seq::new(found@.len(), |k: int| found@[k] as int) =~= kids_upto(mv, kv, 0));
    while i < tree.len()
        invariant
            i <= tree@.len(),
            mv == messages_view(tree@),
            kv == match key {
                Some(v) => Some(v@),
                None => None,
            },
            Seq::new(found@.len(), |k: int| found@[k] as int) == kids_upto(mv, kv, i as int),
            forall|k: int| 0 <= k < found@.len() ==> found@[k] < i,
        decreases tree@.len() - i,
    {
        let ghost before = Seq::new(found@.len(), |k: int| found@[k] as int);
        assert(tree@[i as int]@ == mv[i as int]);
        let h = hang_key_exec(tree, &tree[i]);
        let same = match (&h, key) {
            (Some(a), Some(b)) => eq_chars(a.as_slice(), b.as_slice()),
            (None, None) => true,
            _ => false,
        };
        if same {
            found.push(i);
            assert(Seq::new(found@.len(), |k: int| found@[k] as int) =~= before.push(i as int));
        }
        i = i + 1;
    }
    let ghost unsorted = Seq::new(found@.len(), |k: int| found@[k] as int);
    let mut out: Vec<usize> = Vec::new();
    let mut j: usize = 0;
    assert(unsorted.take(0) =~= Seq::<int>::empty());
    assert(Seq::new(out@.len(), |k: int| out@[k] as int) =~= Seq::<int>::empty());
    while j < found.len()
        invariant
            j <= found@.len(),
            mv == messages_view(tree@),
            unsorted == Seq::new(found@.len(), |k: int| found@[k] as int),
            forall|k: int| 0 <= k < found@.len() ==> found@[k] < tree@.len(),
            forall|k: int| 0 <= k < out@.len() ==> out@[k] < tree@.len(),
            Seq::new(out@.len(), |k: int| out@[k] as int) == sort_oldest_first(mv, unsorted.take(j as int)),
        decreases found@.len() - j,
    {
        let x = found[j];
        let ghost ov = Seq::new(out@.len(), |k: int| out@[k] as int);
        let mut p: usize = 0;
        while p < out.len() && tree[out[p]].created_at <= tree[x].created_at
            invariant
                p <= out@.len(),
                x < tree@.len(),
                mv == messages_view(tree@),
                forall|k: int| 0 <= k < out@.len() ==> out@[k] < tree@.len(),
                ov == Seq::new(out@.len(), |k: int| out@[k] as int),
                insert_pos_asc(mv, ov, x as int, 0) == insert_pos_asc(mv, ov, x as int, p as int),
            decreases out@.len() - p,
        {
            assert(tree@[out@[p as int] as int]@ == mv[ov[p as int]]);
            p = p + 1;
        }
        proof {
            if p < out@.len() {
                assert(tree@[out@[p as int] as int]@ == mv[ov[p as int]]);
            }
        }
        out.insert(p, x);
        assert(unsorted.take(j + 1).drop_last() =~= unsorted.take(j as int));
        assert(unsorted.take(j + 1).last() == x as int);
        assert(Seq::new(out@.len(), |k: int| out@[k] as int) =~= ov.insert(p as int, x as int));
        j = j + 1;
    }
    assert(unsorted.take(j as int) =~= unsorted);
    out
}

pub open spec fn items_view(s: Seq<TreeItem>) -> Seq<(Seq<char>, Seq<char>, Seq<char>, bool, bool)> {
    Seq::new(s.len(), |k: int| item_view(s[k]))
}

/// Every message's one-line text fits the width arithmetic.
pub open spec fn labels_fit(tree: Seq<MessageView>) -> bool {
    forall|k: int| 0 <= k < tree.len() ==> snippet_raw(#[trigger] tree[k]).len() <= usize::MAX / 2
}

/// The messages of a branch, from a message up to the root.
fn branch_messages<'a>(tree: &'a [ChatMessage], m: &'a ChatMessage) -> (r: Vec<&'a ChatMessage>)
    ensures
        refs_view(r@) == branch(messages_view(tree@), m@),
{
    let ghost mv = messages_view(tree@);
    let n = tree.len();
    let mut out: Vec<&ChatMessage> = Vec::new();
    out.push(m);
    let mut cur = parent_of(tree, m);
    let ghost rest = match parent_index(mv, m@) {
        Some(i) => chain(mv, mv[i], n as nat),
        None => Seq::<MessageView>::empty(),
    };
    assert(branch(mv, m@) == seq![m@] + rest);
    assert(refs_view(out@) =~= seq![m@]);
    let mut steps: usize = 0;
    while steps < n && cur.is_some()
        invariant
            n == tree@.len(),
            mv == messages_view(tree@),
            steps <= n,
            refs_view(out@) + match cur {
                Some(i) => chain(mv, mv[i as int], (n - steps) as nat),
                None => Seq::<MessageView>::empty(),
            } == branch(mv, m@),
            cur matches Some(i) ==> i < n,
        decreases n - steps,
    {
        let i = cur.unwrap();
        let x = &tree[i];
        assert(x@ == mv[i as int]);
        let next = parent_of(tree, x);
        let ghost before = refs_view(out@);
        let ghost tail = match next {
            Some(j) => chain(mv, mv[j as int], (n - steps - 1) as nat),
            None => Seq::<MessageView>::empty(),
        };
        assert(chain(mv, mv[i as int], (n - steps) as nat) == seq![x@] + tail);
        out.push(x);
        assert(refs_view(out@) =~= before.push(x@));
        assert(before + (seq![x@] + tail) =~= refs_view(out@) + tail);
        cur = next;
        steps = steps + 1;
    }
    assert(refs_view(out@) + match cur {
        Some(i) => chain(mv, mv[i as int], (n - steps) as nat),
        None => Seq::<MessageView>::empty(),
    } =~= refs_view(out@));
    out
}

fn path_has(path: &Vec<&ChatMessage>, id: &[char]) -> (b: bool)
    ensures
        b == has_id(refs_view(path@), id@),
{
    let ghost pv = refs_view(path@);
    let mut i: usize = 0;
    while i < path.len()
        invariant
            i <= path@.len(),
            pv == refs_view(path@),
            forall|k: int| 0 <= k < i ==> #[trigger] pv[k].id != id@,
        decreases path@.len() - i,
    {
        let c = chars_of(path[i].id.as_str());
        if eq_chars(c.as_slice(), id) {
            assert(pv[i as int].id == id@);
            return true;
        }
        i = i + 1;
    }
    false
}

fn walk_node_exec(
    tree: &[ChatMessage],
    path: &Vec<&ChatMessage>,
    i: usize,
    prefix: &[char],
    is_last: bool,
    fuel: usize,
    out: &mut Vec<TreeItem>,
)
    requires
        labels_fit(messages_view(tree@)),
    ensures
        items_view(final(out)@) == items_view(old(out)@) + walk_node(
            messages_view(tree@),
            refs_view(path@),
            i as int,
            prefix@,
            is_last,
            fuel as nat,
        ),
    decreases fuel, 0int, 0int,
{
    let ghost mv = messages_view(tree@);
    let ghost start = items_view(out@);
    if fuel == 0 || i >= tree.len() {
        assert(start + Seq::<(Seq<char>, Seq<char>, Seq<char>, bool, bool)>::empty() =~= start);
        return;
    }
    let m = &tree[i];
    assert(m@ == mv[i as int]);
    let id = chars_of(m.id.as_str());
    let key: Option<Vec<char>> = Some(chars_of(m.id.as_str()));
    let ks = kids_exec(tree, &key);
    let mut p: Vec<char> = vstd::slice::slice_to_vec(prefix);
    let conn = if prefix.len() == 0 {
        chars_of("")
    } else if is_last {
        chars_of("\u{2514}\u{2500} ")
    } else {
        chars_of("\u{251C}\u{2500} ")
    };
    append_chars(&mut p, conn.as_slice());
    let item = TreeItem {
        id: m.id.clone(),
        prefix: string_of(p.as_slice()),
        label: tree_label(m),
        on_current: path_has(path, id.as_slice()),
        is_leaf: ks.len() == 0,
    };
    let ghost iv = item_view(item);
    out.push(item);
    assert(items_view(out@) =~= start.push(iv));
    let mut cp: Vec<char> = vstd::slice::slice_to_vec(prefix);
    let tail = if is_last {
        chars_of("   ")
    } else {
        chars_of("\u{2502}  ")
    };
    append_chars(&mut cp, tail.as_slice());
    walk_list_exec(tree, path, &ks, cp.as_slice(), fuel - 1, out);
    assert(start.push(iv) + walk_list(
        mv,
        refs_view(path@),
        Seq::new(ks@.len(), |k: int| ks@[k] as int),
        0,
        cp@,
        (fuel - 1) as nat,
    ) =~= start + walk_node(mv, refs_view(path@), i as int, prefix@, is_last, fuel as nat));
}

fn walk_list_exec(
    tree: &[ChatMessage],
    path: &Vec<&ChatMessage>,
    ks: &Vec<usize>,
    prefix: &[char],
    fuel: usize,
    out: &mut Vec<TreeItem>,
)
    requires
        labels_fit(messages_view(tree@)),
    ensures
        items_view(final(out)@) == items_view(old(out)@) + walk_list(
            messages_view(tree@),
            refs_view(path@),
            Seq::new(ks@.len(), |k: int| ks@[k] as int),
            0,
            prefix@,
            fuel as nat,
        ),
    decreases fuel, 1int, ks@.len(),
{
    let ghost mv = messages_view(tree@);
    let ghost kv = Seq::new(ks@.len(), |k: int| ks@[k] as int);
    let ghost pv = refs_view(path@);
    let ghost start = items_view(out@);
    let mut j: usize = 0;
    assert(start + walk_list(mv, pv, kv, 0, prefix@, fuel as nat) =~= items_view(out@) + walk_list(
        mv,
        pv,
        kv,
        0,
        prefix@,
        fuel as nat,
    ));
    while j < ks.len()
        invariant
            j <= ks@.len(),
            labels_fit(messages_view(tree@)),
            mv == messages_view(tree@),
            kv == Seq::new(ks@.len(), |k: int| ks@[k] as int),
            pv == refs_view(path@),
            start + walk_list(mv, pv, kv, 0, prefix@, fuel as nat) == items_view(out@) + walk_list(
                mv,
                pv,
                kv,
                j as int,
                prefix@,
                fuel as nat,
            ),
        decreases ks@.len() - j,
    {
        let ghost before = items_view(out@);
        walk_node_exec(tree, path, ks[j], prefix, j + 1 == ks.len(), fuel, out);
        assert(before + walk_list(mv, pv, kv, j as int, prefix@, fuel as nat) =~= items_view(out@) + walk_list(
            mv,
            pv,
            kv,
            j + 1,
            prefix@,
            fuel as nat,
        ));
        j = j + 1;
    }
    assert(items_view(out@) + walk_list(mv, pv, kv, j as int, prefix@, fuel as nat) =~= items_view(out@));
}

/// The history tree as lines, as [`spec_tree_items`] says.
pub fn build_tree_items(tree: &[ChatMessage], current_leaf: Option<&str>) -> (r: Vec<TreeItem>)
    requires
        labels_fit(messages_view(tree@)),
    ensures
        items_view(r@) == spec_tree_items(
            messages_view(tree@),
            match current_leaf {
                Some(l) => Some(l@),
                None => None,
            },
        ),
{
    let ghost mv = messages_view(tree@);
    let path: Vec<&ChatMessage> = match current_leaf {
        Some(l) => {
            let lc = chars_of(l);
            let mut k = tree.len();
            let mut hit: Option<usize> = None;
            while k > 0 && hit.is_none()
                invariant
                    k <= tree@.len(),
                    mv == messages_view(tree@),
                    lc@ == l@,
                    hit is None ==> find_last_id(mv, l@, tree@.len() as int) == find_last_id(mv, l@, k as int),
                    hit matches Some(h) ==> find_last_id(mv, l@, tree@.len() as int) == Some(h as int) && h
                        < tree@.len(),
                decreases k,
            {
                let c = chars_of(tree[k - 1].id.as_str());
                if eq_chars(c.as_slice(), lc.as_slice()) {
                    hit = Some(k - 1);
                }
                k = k - 1;
            }
            match hit {
                Some(h) => {
                    assert(tree@[h as int]@ == mv[h as int]);
                    branch_messages(tree, &tree[h])
                },
                None => {
                    let v: Vec<&ChatMessage> = Vec::new();
                    assert(refs_view(v@) =~= Seq::<MessageView>::empty());
                    v
                },
            }
        },
        None => {
            let v: Vec<&ChatMessage> = Vec::new();
            assert(refs_view(v@) =~= Seq::<MessageView>::empty());
            v
        },
    };
    let roots = kids_exec(tree, &None);
    let mut out: Vec<TreeItem> = Vec::new();
    assert(items_view(out@) =~= Seq::<(Seq<char>, Seq<char>, Seq<char>, bool, bool)>::empty());
    let empty: Vec<char> = Vec::new();
    walk_list_exec(tree, &path, &roots, empty.as_slice(), tree.len(), &mut out);
    assert(Seq::<(Seq<char>, Seq<char>, Seq<char>, bool, bool)>::empty() + spec_tree_items(
        mv,
        match current_leaf {
            Some(l) => Some(l@),
            None => None,
        },
    ) =~= spec_tree_items(
        mv,
        match current_leaf {
            Some(l) => Some(l@),
            None => None,
        },
    ));
    out
}

} // verus!
