use vstd::prelude::*;
use vstd::seq_lib::seq_to_set_is_finite;
use crate::data::DataMap;
use crate::hook::Hook;
use crate::slot::Slot;
use crate::text;

verus! {

/// How a node decides whether it is enabled.
pub enum Gate {
    /// A slot: enabled by its value in the context.
    SlotValue,
    /// A hook without an enable flag: always enabled.
    Always,
    /// An optional hook: enabled by an override under its key, else by the
    /// given default.
    Optional(bool),
}

/// What need resolution reads of a node: its key, its prerequisites, and how
/// it is enabled.
pub struct NodeView {
    pub key: Seq<char>,
    pub needs: Seq<Seq<char>>,
    pub gate: Gate,
}

/// A node of the dependency graph: a slot or a hook.
pub enum Node {
    Slot(Slot),
    Hook(Hook),
}

impl View for Node {
    type V = NodeView;

    open spec fn view(&self) -> NodeView {
        match self {
            Node::Slot(s) => NodeView {
                key: s.key@,
                needs: text::views_of(s.needs@),
                gate: Gate::SlotValue,
            },
            Node::Hook(h) => NodeView {
                key: h.key@,
                needs: text::views_of(h.needs@),
                gate: match h.optional {
                    None => Gate::Always,
                    Some(o) => Gate::Optional(o.default),
                },
            },
        }
    }
}

/// The views of a node list.
pub open spec fn items_view(items: Seq<Node>) -> Seq<NodeView> {
    items.map_values(|n: Node| n@)
}

/// Whether a node is enabled in the context.
pub open spec fn node_enabled(n: NodeView, data: Map<Seq<char>, Seq<char>>) -> bool {
    match n.gate {
        Gate::SlotValue => crate::slot::spec_slot_value_enabled(n.key, data),
        Gate::Always => true,
        Gate::Optional(default) => crate::hook::spec_hook_enabled(n.key, default, data),
    }
}

/// The first node with the key, if any.
pub open spec fn find_node(items: Seq<NodeView>, key: Seq<char>) -> Option<NodeView>
    decreases items.len(),
{
    if items.len() == 0 {
        None
    } else if items.first().key == key {
        Some(items.first())
    } else {
        find_node(items.drop_first(), key)
    }
}

/// The set of keys the node list holds.
pub open spec fn item_keys(items: Seq<NodeView>) -> Set<Seq<char>> {
    items.map_values(|n: NodeView| n.key).to_set()
}

pub proof fn lemma_find_node_key(items: Seq<NodeView>, key: Seq<char>)
    requires
        find_node(items, key) is Some,
    ensures
        item_keys(items).contains(key),
        find_node(items, key).unwrap().key == key,
    decreases items.len(),
{
    broadcast use seq_to_set_is_finite;

    if items.len() > 0 {
        if items.first().key == key {
            assert(items.map_values(|n: NodeView| n.key)[0] == key);
            assert(items.map_values(|n: NodeView| n.key).contains(key));
        } else {
            lemma_find_node_key(items.drop_first(), key);
            let sub = items.drop_first().map_values(|n: NodeView| n.key);
            let j = choose|j: int| 0 <= j < sub.len() && sub[j] == key;
            assert(items.map_values(|n: NodeView| n.key)[j + 1] == key);
            assert(items.map_values(|n: NodeView| n.key).contains(key));
        }
    }
}

/// How many item keys are not yet visited: the measure the resolution
/// recursion shrinks.
pub open spec fn unvisited_count(items: Seq<NodeView>, visited: Set<Seq<char>>) -> nat {
    item_keys(items).difference(visited).len()
}

/// Whether the node under `key` is satisfied: it must exist, be enabled, and
/// have each of its prerequisites satisfied in turn. A key already on the
/// path being explored counts as unsatisfied, so a dependency cycle resolves
/// to an ordinary skip rather than endless descent.
pub open spec fn spec_key_satisfied(
    items: Seq<NodeView>,
    data: Map<Seq<char>, Seq<char>>,
    key: Seq<char>,
    visited: Set<Seq<char>>,
) -> bool
    decreases unvisited_count(items, visited),
    when visited.finite()
    via spec_key_satisfied_dec
{
    if visited.contains(key) {
        false
    } else {
        match find_node(items, key) {
            None => false,
            Some(n) => node_enabled(n, data) && (forall|i: int|
                0 <= i < n.needs.len() ==> spec_key_satisfied(
                    items,
                    data,
                    #[trigger] n.needs[i],
                    visited.insert(key),
                )),
        }
    }
}

#[via_fn]
proof fn spec_key_satisfied_dec(
    items: Seq<NodeView>,
    data: Map<Seq<char>, Seq<char>>,
    key: Seq<char>,
    visited: Set<Seq<char>>,
) {
    broadcast use seq_to_set_is_finite;

    if !visited.contains(key) && find_node(items, key) is Some {
        lemma_find_node_key(items, key);
        lemma_unvisited_insert(items, visited, key);
    }
}

proof fn lemma_unvisited_insert(items: Seq<NodeView>, visited: Set<Seq<char>>, key: Seq<char>)
    requires
        visited.finite(),
        item_keys(items).contains(key),
        !visited.contains(key),
    ensures
        unvisited_count(items, visited.insert(key)) < unvisited_count(items, visited),
{
    broadcast use seq_to_set_is_finite;

    let keys = item_keys(items);
    assert(keys.difference(visited.insert(key)) =~= keys.difference(visited).remove(key));
    assert(keys.difference(visited).contains(key));
    vstd::set::axiom_set_remove_len(keys.difference(visited), key);
}

/// Whether every key of `needs` is satisfied against the node list.
pub open spec fn spec_needs_satisfied(
    items: Seq<NodeView>,
    data: Map<Seq<char>, Seq<char>>,
    needs: Seq<Seq<char>>,
) -> bool {
    forall|i: int|
        0 <= i < needs.len() ==> spec_key_satisfied(
            items,
            data,
            #[trigger] needs[i],
            Set::empty(),
        )
}

/// A capability of slots and hooks alike: a key, an enabled state read from
/// the context, and satisfaction of declared prerequisites.
pub trait Needy {
    spec fn spec_key(&self) -> Seq<char>;

    spec fn spec_needs(&self) -> Seq<Seq<char>>;

    spec fn spec_enabled(&self, data: Map<Seq<char>, Seq<char>>) -> bool;

    fn key(&self) -> (r: String)
        ensures
            r@ == self.spec_key(),
    ;

    fn is_enabled(&self, data: &DataMap) -> (r: bool)
        requires
            data.wf(),
        ensures
            r == self.spec_enabled(data@),
    ;

    fn is_satisfied(&self, items: &Vec<Node>, data: &DataMap) -> (r: bool)
        requires
            data.wf(),
        ensures
            r == spec_needs_satisfied(items_view(items@), data@, self.spec_needs()),
    ;
}

fn node_key_ref<'a>(n: &'a Node) -> (r: &'a String)
    ensures
        r@ == n@.key,
{
    match n {
        Node::Slot(s) => &s.key,
        Node::Hook(h) => &h.key,
    }
}

fn node_needs_ref<'a>(n: &'a Node) -> (r: &'a Vec<String>)
    ensures
        text::views_of(r@) == n@.needs,
{
    match n {
        Node::Slot(s) => &s.needs,
        Node::Hook(h) => &h.needs,
    }
}

fn node_enabled_exec(n: &Node, data: &DataMap) -> (r: bool)
    requires
        data.wf(),
    ensures
        r == node_enabled(n@, data@),
{
    match n {
        Node::Slot(s) => s.is_enabled(data),
        Node::Hook(h) => h.is_enabled(data),
    }
}

fn find_node_exec<'a>(items: &'a Vec<Node>, key: &str) -> (r: Option<&'a Node>)
    ensures
        match r {
            Some(n) => find_node(items_view(items@), key@) == Some(n@),
            None => find_node(items_view(items@), key@) is None,
        },
{
    let n = items.len();
    let mut i: usize = 0;
    proof {
        assert(items_view(items@).skip(0) =~= items_view(items@));
    }
    while i < n
        invariant
            n == items@.len(),
            i <= n,
            find_node(items_view(items@), key@) == find_node(
                items_view(items@).skip(i as int),
                key@,
            ),
        decreases n - i,
    {
        proof {
            assert(items_view(items@).skip(i as int).first() == items_view(items@)[i as int]);
            assert(items_view(items@).skip(i as int).drop_first() =~= items_view(items@).skip(
                i as int + 1,
            ));
        }
        if text::str_eq(node_key_ref(&items[i]).as_str(), key) {
            return Some(&items[i]);
        }
        i = i + 1;
    }
    proof {
        assert(items_view(items@).skip(n as int).len() == 0);
    }
    None
}

/// The set of keys a string vector holds.
pub open spec fn key_set(v: Seq<String>) -> Set<Seq<char>> {
    text::views_of(v).to_set()
}

fn visited_contains(visited: &Vec<String>, key: &str) -> (r: bool)
    ensures
        r == key_set(visited@).contains(key@),
{
    let n = visited.len();
    let mut i: usize = 0;
    while i < n
        invariant
            n == visited@.len(),
            i <= n,
            forall|j: int| 0 <= j < i ==> text::views_of(visited@)[j] != key@,
        decreases n - i,
    {
        if text::str_eq(visited[i].as_str(), key) {
            proof {
                assert(text::views_of(visited@)[i as int] == key@);
                assert(text::views_of(visited@).contains(key@));
            }
            return true;
        }
        i = i + 1;
    }
    proof {
        if text::views_of(visited@).contains(key@) {
            let j = choose|j: int|
                0 <= j < text::views_of(visited@).len() && text::views_of(visited@)[j] == key@;
            assert(false);
        }
    }
    false
}

fn key_satisfied(items: &Vec<Node>, data: &DataMap, key: &str, visited: &mut Vec<String>) -> (r:
    bool)
    requires
        data.wf(),
    ensures
        r == spec_key_satisfied(items_view(items@), data@, key@, key_set(old(visited)@)),
        final(visited)@ == old(visited)@,
    decreases unvisited_count(items_view(items@), key_set(old(visited)@)),
{
    proof {
        broadcast use seq_to_set_is_finite;

    }
    if visited_contains(visited, key) {
        return false;
    }
    let found = find_node_exec(items, key);
    match found {
        None => false,
        Some(n) => {
            if !node_enabled_exec(n, data) {
                return false;
            }
            proof {
                lemma_find_node_key(items_view(items@), key@);
                lemma_unvisited_insert(items_view(items@), key_set(visited@), key@);
            }
            let ghost pre = visited@;
            visited.push(key.to_owned());
            proof {
                assert(text::views_of(visited@) =~= text::views_of(pre).push(key@));
                assert(key_set(visited@) =~= key_set(pre).insert(key@)) by {
                    assert forall|x: Seq<char>| key_set(visited@).contains(x) implies key_set(
                        pre,
                    ).insert(key@).contains(x) by {
                        let vs = text::views_of(visited@);
                        let j = choose|j: int| 0 <= j < vs.len() && vs[j] == x;
                        if j < vs.len() - 1 {
                            assert(text::views_of(pre)[j] == x);
                            assert(text::views_of(pre).contains(x));
                        }
                    }
                    assert forall|x: Seq<char>| key_set(pre).insert(key@).contains(x)
                        implies key_set(visited@).contains(x) by {
                        let vs = text::views_of(visited@);
                        if x == key@ {
                            assert(vs[vs.len() - 1] == x);
                            assert(vs.contains(x));
                        } else {
                            let j = choose|j: int|
                                0 <= j < text::views_of(pre).len() && text::views_of(pre)[j] == x;
                            assert(vs[j] == x);
                            assert(vs.contains(x));
                        }
                    }
                }
            }
            let ghost vs = visited@;
            let ghost nv = n@;
            let needs = node_needs_ref(n);
            let m = needs.len();
            let mut i: usize = 0;
            let mut all_ok = true;
            while i < m && all_ok
                invariant
                    data.wf(),
                    m == needs@.len(),
                    i <= m,
                    text::views_of(needs@) == nv.needs,
                    visited@ == vs,
                    pre == old(visited)@,
                    key_set(vs) == key_set(pre).insert(key@),
                    unvisited_count(items_view(items@), key_set(vs)) < unvisited_count(
                        items_view(items@),
                        key_set(pre),
                    ),
                    all_ok ==> (forall|j: int|
                        0 <= j < i ==> spec_key_satisfied(
                            items_view(items@),
                            data@,
                            #[trigger] nv.needs[j],
                            key_set(pre).insert(key@),
                        )),
                    !all_ok ==> exists|j: int|
                        0 <= j < i && !spec_key_satisfied(
                            items_view(items@),
                            data@,
                            #[trigger] nv.needs[j],
                            key_set(pre).insert(key@),
                        ),
                decreases m - i,
            {
                proof {
                    assert(text::views_of(needs@)[i as int] == needs@[i as int]@);
                }
                if !key_satisfied(items, data, needs[i].as_str(), visited) {
                    all_ok = false;
                }
                i = i + 1;
            }
            visited.pop();
            proof {
                assert(visited@ =~= pre);
                if all_ok {
                    assert(spec_key_satisfied(items_view(items@), data@, key@, key_set(pre)));
                } else {
                    let j = choose|j: int|
                        0 <= j < i && !spec_key_satisfied(
                            items_view(items@),
                            data@,
                            #[trigger] nv.needs[j],
                            key_set(pre).insert(key@),
                        );
                    assert(!spec_key_satisfied(items_view(items@), data@, key@, key_set(pre)));
                }
            }
            all_ok
        },
    }
}

/// Returns true when every key in `needs` names a node of `items` that is
/// enabled and in turn satisfied. An unknown key, a disabled or unsatisfied
/// prerequisite, and a dependency cycle all resolve to false.
pub fn is_satisfied(needs: &Vec<String>, items: &Vec<Node>, data: &DataMap) -> (r: bool)
    requires
        data.wf(),
    ensures
        r == spec_needs_satisfied(items_view(items@), data@, text::views_of(needs@)),
{
    let mut visited: Vec<String> = Vec::new();
    let n = needs.len();
    let mut i: usize = 0;
    proof {
        assert(key_set(visited@) =~= Set::<Seq<char>>::empty());
    }
    while i < n
        invariant
            data.wf(),
            n == needs@.len(),
            i <= n,
            key_set(visited@) =~= Set::<Seq<char>>::empty(),
            forall|j: int|
                0 <= j < i ==> spec_key_satisfied(
                    items_view(items@),
                    data@,
                    #[trigger] text::views_of(needs@)[j],
                    Set::empty(),
                ),
        decreases n - i,
    {
        proof {
            assert(text::views_of(needs@)[i as int] == needs@[i as int]@);
        }
        if !key_satisfied(items, data, needs[i].as_str(), &mut visited) {
            proof {
                assert(!spec_key_satisfied(
                    items_view(items@),
                    data@,
                    text::views_of(needs@)[i as int],
                    Set::empty(),
                ));
            }
            return false;
        }
        i = i + 1;
    }
    true
}

impl Needy for Slot {
    open spec fn spec_key(&self) -> Seq<char> {
        self.key@
    }

    open spec fn spec_needs(&self) -> Seq<Seq<char>> {
        text::views_of(self.needs@)
    }

    open spec fn spec_enabled(&self, data: Map<Seq<char>, Seq<char>>) -> bool {
        self.spec_is_enabled(data)
    }

    fn key(&self) -> (r: String) {
        self.key.clone()
    }

    fn is_enabled(&self, data: &DataMap) -> (r: bool) {
        Slot::is_enabled(self, data)
    }

    fn is_satisfied(&self, items: &Vec<Node>, data: &DataMap) -> (r: bool) {
        is_satisfied(&self.needs, items, data)
    }
}

impl Needy for Hook {
    open spec fn spec_key(&self) -> Seq<char> {
        self.key@
    }

    open spec fn spec_needs(&self) -> Seq<Seq<char>> {
        text::views_of(self.needs@)
    }

    open spec fn spec_enabled(&self, data: Map<Seq<char>, Seq<char>>) -> bool {
        self.spec_is_enabled(data)
    }

    fn key(&self) -> (r: String) {
        self.key.clone()
    }

    fn is_enabled(&self, data: &DataMap) -> (r: bool) {
        Hook::is_enabled(self, data)
    }

    fn is_satisfied(&self, items: &Vec<Node>, data: &DataMap) -> (r: bool) {
        is_satisfied(&self.needs, items, data)
    }
}

} // verus!
