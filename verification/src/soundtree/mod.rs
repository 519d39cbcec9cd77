//! The sound catalog: a tree of menus keyed by physical keys.

use crate::keys::Key;
use vstd::prelude::*;

pub mod parser;

verus! {

/// A reference to a decoded sound, which the audio side holds.
#[derive(Clone, Copy, PartialEq, Eq, Structural, Debug)]
pub struct SoundId(pub usize);

/// A node of the catalog, as a mathematical value.
pub enum NodeView {
    /// The variations of one sound: display name and sound, in the order they were added.
    Leaf(Seq<(Seq<char>, SoundId)>),
    /// A named sub-menu.
    Branch(Seq<char>, Seq<(Seq<char>, NodeView)>),
}

/// A menu as a mathematical value: key names and their nodes, in the order
/// the keys were first inserted.
pub type MenuView = Seq<(Seq<char>, NodeView)>;

/// `key` stands at index `i` of the menu, and nowhere before it.
pub open spec fn is_first_at(menu: MenuView, key: Seq<char>, i: int) -> bool {
    &&& 0 <= i < menu.len()
    &&& menu[i].0 == key
    &&& forall|j: int| 0 <= j < i ==> (#[trigger] menu[j]).0 != key
}

/// The index of the entry of `key`, if the menu has one.
pub open spec fn menu_find(menu: MenuView, key: Seq<char>) -> Option<int> {
    if exists|i: int| is_first_at(menu, key, i) {
        Some(choose|i: int| is_first_at(menu, key, i))
    } else {
        None
    }
}

/// The node under `key`, if the menu has one.
pub open spec fn menu_get(menu: MenuView, key: Seq<char>) -> Option<NodeView> {
    match menu_find(menu, key) {
        Some(i) => Some(menu[i].1),
        None => None,
    }
}

/// The menu after `node` was put under `key`: in the place of the node that
/// was there, or at the end.
pub open spec fn menu_insert(menu: MenuView, key: Seq<char>, node: NodeView) -> MenuView {
    match menu_find(menu, key) {
        Some(i) => menu.update(i, (key, node)),
        None => menu.push((key, node)),
    }
}

/// The keys of a menu, in order.
pub open spec fn menu_keys(menu: MenuView) -> Seq<Seq<char>> {
    Seq::new(menu.len(), |i: int| menu[i].0)
}

/// No key stands twice in the menu.
pub open spec fn menu_distinct(menu: MenuView) -> bool {
    forall|i: int, j: int|
        0 <= i < menu.len() && 0 <= j < menu.len() && i != j ==> (#[trigger] menu[i]).0 != (
        #[trigger] menu[j]).0
}

/// A leaf holds at least one variation, and no more than can be counted;
/// a branch holds a well-formed menu.
pub open spec fn node_wf(node: NodeView) -> bool
    decreases node,
{
    match node {
        NodeView::Leaf(sounds) => 0 < sounds.len() <= usize::MAX,
        NodeView::Branch(_, menu) => menu_wf(menu),
    }
}

/// Every key stands once and every node is well-formed, at every level.
pub open spec fn menu_wf(menu: MenuView) -> bool
    decreases menu,
{
    &&& menu_distinct(menu)
    &&& forall|i: int| 0 <= i < menu.len() ==> node_wf((#[trigger] menu[i]).1)
}

/// A node of the catalog.
#[derive(Debug, PartialEq, Eq)]
pub enum SoundNode {
    /// The variations of one sound, each with its display name.
    Leaf(Vec<(String, SoundId)>),
    /// A sub-menu with its display name.
    Branch((String, SoundMap)),
}

/// One menu of the catalog: at most one node for each key.
#[derive(Debug, PartialEq, Eq)]
pub struct SoundMap {
    entries: Vec<(Key, SoundNode)>,
}

/// The variations of a leaf as a mathematical value.
pub open spec fn sounds_view(sounds: Seq<(String, SoundId)>) -> Seq<(Seq<char>, SoundId)> {
    Seq::new(sounds.len(), |i: int| (sounds[i].0@, sounds[i].1))
}

impl SoundNode {
    pub open spec fn view(&self) -> NodeView
        decreases self,
    {
        match self {
            SoundNode::Leaf(sounds) => NodeView::Leaf(sounds_view(sounds@)),
            SoundNode::Branch((name, map)) => NodeView::Branch(name@, map.view()),
        }
    }

    pub open spec fn wf(&self) -> bool {
        node_wf(self.view())
    }
}

impl SoundMap {
    pub closed spec fn view(&self) -> MenuView
        decreases self,
    {
        Seq::new(
            self.entries@.len(),
            |i: int|
                if 0 <= i < self.entries@.len() {
                    (self.entries@[i].0@, self.entries@[i].1.view())
                } else {
                    (Seq::empty(), NodeView::Leaf(Seq::empty()))
                },
        )
    }

    pub open spec fn wf(&self) -> bool {
        menu_wf(self.view())
    }
}

/// The node that `node` becomes when a variation is added: a leaf grows by
/// one at its end, a branch stays as it is.
pub open spec fn node_with_sound(node: NodeView, name: Seq<char>, sound: SoundId) -> NodeView {
    match node {
        NodeView::Leaf(sounds) => NodeView::Leaf(sounds.push((name, sound))),
        NodeView::Branch(_, _) => node,
    }
}

/// The menu after a variation was added under `key`: to the node that is
/// there, or as a new leaf at the end.
pub open spec fn menu_with_sound(
    menu: MenuView,
    key: Seq<char>,
    name: Seq<char>,
    sound: SoundId,
) -> MenuView {
    match menu_find(menu, key) {
        Some(i) => menu.update(i, (key, node_with_sound(menu[i].1, name, sound))),
        None => menu.push((key, NodeView::Leaf(seq![(name, sound)]))),
    }
}

/// The entry that holds `key` first is the one that `menu_find` names.
pub proof fn lemma_find_first(menu: MenuView, key: Seq<char>, i: int)
    requires
        is_first_at(menu, key, i),
    ensures
        menu_find(menu, key) == Some(i),
{
    let k = choose|k: int| is_first_at(menu, key, k);
    assert(is_first_at(menu, key, k));
    if k < i {
        assert(menu[k].0 != key);
    }
    if i < k {
        assert(menu[i].0 != key);
    }
}

/// A key that stands nowhere in the menu is not found.
pub proof fn lemma_find_none(menu: MenuView, key: Seq<char>)
    requires
        forall|j: int| 0 <= j < menu.len() ==> (#[trigger] menu[j]).0 != key,
    ensures
        menu_find(menu, key) is None,
{
}

/// What `menu_find` returns, in full.
pub proof fn lemma_find(menu: MenuView, key: Seq<char>)
    ensures
        match menu_find(menu, key) {
            Some(i) => is_first_at(menu, key, i),
            None => forall|j: int| 0 <= j < menu.len() ==> (#[trigger] menu[j]).0 != key,
        },
{
    if exists|i: int| is_first_at(menu, key, i) {
    } else {
        assert forall|j: int| 0 <= j < menu.len() implies (#[trigger] menu[j]).0 != key by {
            if menu[j].0 == key {
                lemma_some_first(menu, key, j);
            }
        }
    }
}

/// If `key` stands at `j`, it stands somewhere first.
proof fn lemma_some_first(menu: MenuView, key: Seq<char>, j: int)
    requires
        0 <= j < menu.len(),
        menu[j].0 == key,
    ensures
        exists|i: int| is_first_at(menu, key, i),
    decreases j,
{
    if forall|k: int| 0 <= k < j ==> (#[trigger] menu[k]).0 != key {
        assert(is_first_at(menu, key, j));
    } else {
        let k = choose|k: int| 0 <= k < j && (#[trigger] menu[k]).0 == key;
        lemma_some_first(menu, key, k);
    }
}

/// Putting a well-formed node under a key keeps a menu well-formed.
pub proof fn lemma_insert_wf(menu: MenuView, key: Seq<char>, node: NodeView)
    requires
        menu_wf(menu),
        node_wf(node),
    ensures
        menu_wf(menu_insert(menu, key, node)),
{
    lemma_find(menu, key);
    let after = menu_insert(menu, key, node);
    assert forall|i: int| 0 <= i < after.len() implies node_wf((#[trigger] after[i]).1) by {
        if i < menu.len() {
            assert(node_wf(menu[i].1));
        }
    }
    assert forall|i: int, j: int|
        0 <= i < after.len() && 0 <= j < after.len() && i != j implies (#[trigger] after[i]).0 != (
        #[trigger] after[j]).0 by {
        if i < menu.len() && j < menu.len() {
            assert(menu[i].0 != menu[j].0);
        } else if i < menu.len() {
            assert(menu[i].0 != key);
        } else {
            assert(menu[j].0 != key);
        }
    }
}

/// Adding a variation keeps a menu well-formed, unless the leaf it is added
/// to is already as long as can be counted.
pub proof fn lemma_with_sound_wf(menu: MenuView, key: Seq<char>, name: Seq<char>, sound: SoundId)
    requires
        menu_wf(menu),
        menu_get(menu, key) matches Some(NodeView::Leaf(sounds)) ==> sounds.len() < usize::MAX,
    ensures
        menu_wf(menu_with_sound(menu, key, name, sound)),
{
    lemma_find(menu, key);
    match menu_find(menu, key) {
        Some(i) => {
            let node = node_with_sound(menu[i].1, name, sound);
            assert(node_wf(menu[i].1));
            assert(node_wf(node));
            assert(menu_with_sound(menu, key, name, sound) == menu_insert(menu, key, node));
            lemma_insert_wf(menu, key, node);
        },
        None => {
            let node = NodeView::Leaf(seq![(name, sound)]);
            assert(node_wf(node));
            assert(menu_with_sound(menu, key, name, sound) == menu_insert(menu, key, node));
            lemma_insert_wf(menu, key, node);
        },
    }
}

/// After `node` was put under `key`, it is what the menu has under `key`,
/// and every other key has what it had.
pub proof fn lemma_get_insert(menu: MenuView, key: Seq<char>, node: NodeView, other: Seq<char>)
    ensures
        menu_get(menu_insert(menu, key, node), other) == if other == key {
            Some(node)
        } else {
            menu_get(menu, other)
        },
{
    let after = menu_insert(menu, key, node);
    lemma_find(menu, key);
    lemma_find(menu, other);
    let at = match menu_find(menu, key) {
        Some(i) => i,
        None => menu.len() as int,
    };
    assert forall|j: int| 0 <= j < menu.len() implies (#[trigger] after[j]).0 == menu[j].0 by {}
    if other == key {
        assert(is_first_at(after, key, at)) by {
            assert forall|j: int| 0 <= j < at implies (#[trigger] after[j]).0 != key by {
                assert(menu[j].0 != key);
            }
        }
        lemma_find_first(after, key, at);
    } else {
        match menu_find(menu, other) {
            Some(j) => {
                assert(is_first_at(after, other, j)) by {
                    assert forall|x: int| 0 <= x < j implies (#[trigger] after[x]).0 != other by {
                        assert(menu[x].0 != other);
                    }
                }
                lemma_find_first(after, other, j);
            },
            None => {
                assert forall|j: int| 0 <= j < after.len() implies (#[trigger] after[j]).0
                    != other by {
                    if j < menu.len() {
                        assert(menu[j].0 != other);
                    }
                }
                lemma_find_none(after, other);
            },
        }
    }
}

/// The node under `key` after a variation was added there.
pub open spec fn grown(node: Option<NodeView>, name: Seq<char>, sound: SoundId) -> NodeView {
    match node {
        Some(node) => node_with_sound(node, name, sound),
        None => NodeView::Leaf(seq![(name, sound)]),
    }
}

/// After a variation was added under `key`, the menu has the grown node
/// under `key`, and every other key has what it had.
pub proof fn lemma_get_with_sound(
    menu: MenuView,
    key: Seq<char>,
    name: Seq<char>,
    sound: SoundId,
    other: Seq<char>,
)
    ensures
        menu_get(menu_with_sound(menu, key, name, sound), other) == if other == key {
            Some(grown(menu_get(menu, key), name, sound))
        } else {
            menu_get(menu, other)
        },
{
    let node = grown(menu_get(menu, key), name, sound);
    assert(menu_with_sound(menu, key, name, sound) == menu_insert(menu, key, node));
    lemma_get_insert(menu, key, node, other);
}

impl SoundNode {
    /// A leaf with the given variations.
    pub fn leaf(sounds: Vec<(String, SoundId)>) -> (node: SoundNode)
        ensures
            node.view() == NodeView::Leaf(sounds_view(sounds@)),
    {
        SoundNode::Leaf(sounds)
    }

    /// A branch with the given name and menu.
    pub fn branch(name: String, map: SoundMap) -> (node: SoundNode)
        ensures
            node.view() == NodeView::Branch(name@, map.view()),
    {
        SoundNode::Branch((name, map))
    }

    /// Whether the node is well-formed, all the way down.
    pub fn is_well_formed(&self) -> (ok: bool)
        ensures
            ok == self.wf(),
        decreases self,
    {
        match self {
            SoundNode::Leaf(sounds) => sounds.len() > 0,
            SoundNode::Branch((_, map)) => map.is_well_formed(),
        }
    }

    /// Adds a variation at the end of a leaf; a branch is left as it is.
    pub fn insert_sound(&mut self, name: String, sound: SoundId)
        ensures
            final(self).view() == node_with_sound(old(self).view(), name@, sound),
            old(self).wf() ==> final(self).wf(),
    {
        match self {
            SoundNode::Leaf(sounds) => {
                sounds.push((name, sound));
                assert(sounds@.len() == sounds.len());
                assert(sounds_view(sounds@) =~= sounds_view(old(self)->Leaf_0@).push(
                    (name@, sound),
                ));
            },
            SoundNode::Branch(_) => {},
        }
    }
}

impl SoundMap {
    /// The empty menu.
    pub fn new() -> (map: SoundMap)
        ensures
            map.view() == Seq::<(Seq<char>, NodeView)>::empty(),
            map.wf(),
    {
        let map = SoundMap { entries: Vec::new() };
        assert(map.view() =~= Seq::empty());
        map
    }

    /// Whether the menu is well-formed, all the way down.
    pub fn is_well_formed(&self) -> (ok: bool)
        ensures
            ok == self.wf(),
        decreases self,
    {
        let ghost menu = self.view();
        let mut i: usize = 0;
        while i < self.entries.len()
            invariant
                i <= self.entries@.len(),
                menu == self.view(),
                forall|a: int| 0 <= a < i ==> node_wf((#[trigger] menu[a]).1),
                forall|a: int, b: int|
                    0 <= a < i && 0 <= b < i && a != b ==> (#[trigger] menu[a]).0 != (
                    #[trigger] menu[b]).0,
            decreases self.entries@.len() - i,
        {
            if !self.entries[i].1.is_well_formed() {
                assert(!node_wf(menu[i as int].1));
                return false;
            }
            let mut j: usize = 0;
            while j < i
                invariant
                    j <= i < self.entries@.len(),
                    menu == self.view(),
                    forall|b: int| 0 <= b < j ==> (#[trigger] menu[b]).0 != menu[i as int].0,
                decreases i - j,
            {
                if self.entries[j].0.is(&self.entries[i].0) {
                    assert(menu[j as int].0 == menu[i as int].0);
                    return false;
                }
                j += 1;
            }
            i += 1;
        }
        true
    }

    /// The number of keys.
    pub fn len(&self) -> (len: usize)
        ensures
            len == self.view().len(),
    {
        self.entries.len()
    }

    /// The key at index `i`.
    pub fn key_at(&self, i: usize) -> (key: &Key)
        requires
            i < self.view().len(),
        ensures
            key@ == self.view()[i as int].0,
    {
        &self.entries[i].0
    }

    /// The node at index `i`.
    pub fn node_at(&self, i: usize) -> (node: &SoundNode)
        requires
            i < self.view().len(),
        ensures
            node.view() == self.view()[i as int].1,
    {
        &self.entries[i].1
    }

    /// The index of the entry of `key`.
    pub fn find(&self, key: &Key) -> (found: Option<usize>)
        ensures
            match found {
                Some(i) => menu_find(self.view(), key@) == Some(i as int),
                None => menu_find(self.view(), key@) is None,
            },
    {
        let mut i: usize = 0;
        while i < self.entries.len()
            invariant
                i <= self.entries@.len(),
                forall|j: int| 0 <= j < i ==> (#[trigger] self.view()[j]).0 != key@,
            decreases self.entries@.len() - i,
        {
            if self.entries[i].0.is(key) {
                proof {
                    lemma_find_first(self.view(), key@, i as int);
                }
                return Some(i);
            }
            i += 1;
        }
        proof {
            lemma_find_none(self.view(), key@);
        }
        None
    }

    /// The node under `key`.
    pub fn get(&self, key: &Key) -> (node: Option<&SoundNode>)
        ensures
            match node {
                Some(n) => menu_get(self.view(), key@) == Some(n.view()),
                None => menu_get(self.view(), key@) is None,
            },
    {
        match self.find(key) {
            Some(i) => Some(&self.entries[i].1),
            None => None,
        }
    }

    /// Puts `node` under `key`, in the place of the node that was there if
    /// there was one.
    pub fn insert(&mut self, key: Key, node: SoundNode)
        ensures
            final(self).view() == menu_insert(old(self).view(), key@, node.view()),
            old(self).wf() && node.wf() ==> final(self).wf(),
    {
        let ghost before = self.view();
        let ghost k = key@;
        let ghost n = node.view();
        match self.find(&key) {
            Some(i) => {
                self.entries.set(i, (key, node));
                assert(self.view() =~= before.update(i as int, (k, n)));
            },
            None => {
                self.entries.push((key, node));
                assert(self.view() =~= before.push((k, n)));
            },
        }
        proof {
            if menu_wf(before) && node_wf(n) {
                lemma_insert_wf(before, k, n);
            }
        }
    }

    /// Adds a variation under `key`: at the end of the leaf that is there, or
    /// as a new leaf. A branch under `key` is left as it is.
    pub fn insert_sound(&mut self, key: Key, name: String, sound: SoundId)
        ensures
            final(self).view() == menu_with_sound(old(self).view(), key@, name@, sound),
            old(self).wf() ==> final(self).wf(),
    {
        let ghost before = self.view();
        let ghost k = key@;
        let ghost n = name@;
        match self.find(&key) {
            Some(i) => {
                let (old_key, mut node) = self.entries.remove(i);
                node.insert_sound(name, sound);
                self.entries.insert(i, (old_key, node));
                assert(self.view() =~= before.update(
                    i as int,
                    (k, node_with_sound(before[i as int].1, n, sound)),
                ));
            },
            None => {
                let mut sounds: Vec<(String, SoundId)> = Vec::new();
                sounds.push((name, sound));
                assert(sounds_view(sounds@) =~= seq![(n, sound)]);
                self.entries.push((key, SoundNode::leaf(sounds)));
                assert(self.view() =~= before.push((k, NodeView::Leaf(seq![(n, sound)]))));
            },
        }
        proof {
            if menu_wf(before) {
                lemma_find(before, k);
                lemma_with_sound_wf(before, k, n, sound);
            }
        }
    }
}

/// The catalog: the menu at the top, and all below it.
#[derive(Debug, PartialEq, Eq)]
pub struct SoundTree {
    root: SoundMap,
}

impl SoundTree {
    /// The catalog whose top menu is `tree`.
    pub fn new(tree: SoundMap) -> (catalog: SoundTree)
        ensures
            catalog.view() == tree.view(),
    {
        SoundTree { root: tree }
    }

    /// The top menu.
    pub fn root(&self) -> (root: &SoundMap)
        ensures
            root.view() == self.view(),
    {
        &self.root
    }

    /// Whether the catalog is well-formed, all the way down.
    pub fn is_well_formed(&self) -> (ok: bool)
        ensures
            ok == self.wf(),
    {
        self.root.is_well_formed()
    }

    /// The top menu as a mathematical value.
    pub closed spec fn view(&self) -> MenuView {
        self.root.view()
    }

    pub open spec fn wf(&self) -> bool {
        menu_wf(self.view())
    }
}

} // verus!
