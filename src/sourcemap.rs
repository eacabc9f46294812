//! The source map: its two input shapes, the path index built from the
//! tree shape, and the resolution of an instance path to a file path.
use vstd::prelude::*;
use crate::ordered_map::{
    first_pair, first_value, insert_all, insert_pair, lemma_first_pair_at, lemma_first_pair_none,
    lemma_insert_all_concat, lookup, OrderedMap,
};
use crate::text::{
    chars_of, contains_chars, contains_sub, find_char, find_last_char, first_segment,
    has_segment, has_segment_chars, index_of, last_index_of, last_segment, remove_char, slice_chars, trim,
    trim_bounds, without,
};

verus! {

/// One named object of the flat map shape.
#[allow(non_snake_case)]
#[derive(Debug, Clone)]
pub struct RojoSourceMapEntry {
    pub path: String,
    pub filePaths: Vec<String>,
}

/// One object of the tree map shape; it owns its children.
#[allow(non_snake_case)]
#[derive(Debug)]
pub struct RojoSourceMapNode {
    pub name: String,
    pub className: String,
    pub filePaths: Vec<String>,
    pub children: Vec<RojoSourceMapNode>,
}

impl Clone for RojoSourceMapNode {
    /// A deep copy: each child is cloned in turn.
    fn clone(&self) -> Self
        decreases self,
    {
        let mut children: Vec<RojoSourceMapNode> = Vec::new();
        let mut i: usize = 0;
        while i < self.children.len()
            invariant
                i <= self.children@.len(),
            decreases self.children.len() - i,
        {
            children.push(self.children[i].clone());
            i = i + 1;
        }
        RojoSourceMapNode {
            name: self.name.clone(),
            className: self.className.clone(),
            filePaths: self.filePaths.clone(),
            children,
        }
    }
}

/// The map text matched neither shape.
#[derive(Debug, Clone)]
pub struct ParseError {
    pub message: String,
}

/// The key of a child named `name` under a node whose key is `parent`.
pub open spec fn child_key(parent: Seq<char>, name: Seq<char>) -> Seq<char> {
    parent + "."@ + name
}

/// What a node contributes to the index itself: its key with its first file
/// path, when it has one that is not empty.
pub open spec fn own_pairs(n: RojoSourceMapNode, key: Seq<char>) -> Seq<(Seq<char>, String)> {
    if n.filePaths@.len() > 0 && n.filePaths@[0]@.len() > 0 {
        seq![(key, n.filePaths@[0])]
    } else {
        Seq::empty()
    }
}

/// The insertions that a depth-first walk of the tree under `n` makes, `n`
/// having the key `key`: the node first, then each child's subtree in order.
pub open spec fn node_pairs(n: RojoSourceMapNode, key: Seq<char>) -> Seq<(Seq<char>, String)>
    decreases n, n.children@.len() + 1,
{
    own_pairs(n, key) + children_pairs(n, key, 0)
}

/// The insertions for the subtrees of the children of `n` from the `i`-th on.
pub open spec fn children_pairs(n: RojoSourceMapNode, key: Seq<char>, i: int) -> Seq<
    (Seq<char>, String),
>
    decreases n, n.children@.len() - i,
{
    if 0 <= i < n.children@.len() {
        let c = n.children@[i];
        node_pairs(c, child_key(key, c.name@)) + children_pairs(n, key, i + 1)
    } else {
        Seq::empty()
    }
}

/// The index of a tree: the walk's insertions from the root, whose key is its
/// own name, applied in order to an empty index (a repeated key keeps its
/// first place and takes the last value).
pub open spec fn tree_index(root: RojoSourceMapNode) -> Seq<(Seq<char>, String)> {
    insert_all(Seq::empty(), node_pairs(root, root.name@))
}

fn process_node(node: &RojoSourceMapNode, current_path: &String, path_map: &mut OrderedMap<String>)
    ensures
        final(path_map)@ == insert_all(old(path_map)@, node_pairs(*node, current_path@)),
    decreases node,
{
    let ghost start = path_map@;
    let ghost key = current_path@;
    if node.filePaths.len() > 0 && !node.filePaths[0].as_str().is_empty() {
        path_map.insert(current_path.clone(), node.filePaths[0].clone());
    }
    assert(path_map@ == insert_all(start, own_pairs(*node, key))) by {
        let own = own_pairs(*node, key);
        if own.len() > 0 {
            assert(own.drop_first().len() == 0);
            assert(insert_all(start, own) == insert_all(
                insert_pair(start, own[0].0, own[0].1),
                own.drop_first(),
            ));
        }
    }
    proof {
        lemma_insert_all_concat(start, own_pairs(*node, key), children_pairs(*node, key, 0));
    }
    let mut i: usize = 0;
    while i < node.children.len()
        invariant
            i <= node.children@.len(),
            key == current_path@,
            insert_all(path_map@, children_pairs(*node, key, i as int)) == insert_all(
                start,
                node_pairs(*node, key),
            ),
        decreases node.children.len() - i,
    {
        let child = &node.children[i];
        let child_path = current_path.clone().concat(".").concat(child.name.as_str());
        let ghost before = path_map@;
        process_node(child, &child_path, path_map);
        proof {
            lemma_insert_all_concat(
                before,
                node_pairs(*child, child_key(key, child.name@)),
                children_pairs(*node, key, i + 1),
            );
        }
        i = i + 1;
    }
}

/// A source map: the entries of the flat shape and the path index of the tree
/// shape, each in the order in which its keys were first inserted.
#[derive(Debug, Clone)]
pub struct RojoSourceMap {
    entries: OrderedMap<RojoSourceMapEntry>,
    path_map: OrderedMap<String>,
}

/// The file path that a flat entry stands for: its own path when that is not
/// empty, else the first of its file paths when that one is not empty.
pub open spec fn entry_candidate(e: RojoSourceMapEntry) -> Option<String> {
    if e.path@.len() > 0 {
        Some(e.path)
    } else if e.filePaths@.len() > 0 && e.filePaths@[0]@.len() > 0 {
        Some(e.filePaths@[0])
    } else {
        None
    }
}

/// Map text with whatever stands before its first `{` cut off; all of it when
/// it holds no `{`.
pub open spec fn json_body(t: Seq<char>) -> Seq<char> {
    match index_of(t, '{') {
        Some(i) => t.skip(i),
        None => t,
    }
}

/// Cuts off output that a map-producing command printed before the JSON.
pub fn strip_json_prefix(text: &str) -> (r: &str)
    ensures
        r@ == json_body(text@),
{
    let tc = chars_of(text);
    proof {
        crate::text::lemma_index_of(tc@, '{');
    }
    match find_char(&tc, '{') {
        Some(i) => {
            let r = text.substring_char(i, tc.len());
            assert(r@ =~= text@.skip(i as int));
            r
        },
        None => text,
    }
}

/// The pairs of `s` whose entry stands for a file path, in their order.
pub open spec fn usable_entries(s: Seq<(Seq<char>, RojoSourceMapEntry)>) -> Seq<
    (Seq<char>, RojoSourceMapEntry),
>
    decreases s.len(),
{
    if s.len() == 0 {
        s
    } else if entry_candidate(s[0].1) is Some {
        seq![s[0]] + usable_entries(s.drop_first())
    } else {
        usable_entries(s.drop_first())
    }
}

/// Takes out of `entries` each entry that stands for no file path.
fn drop_unusable(entries: &mut OrderedMap<RojoSourceMapEntry>)
    ensures
        final(entries)@ == usable_entries(old(entries)@),
{
    let ghost orig = entries@;
    let mut i: usize = 0;
    assert(orig.take(0) + usable_entries(orig.skip(0)) =~= usable_entries(orig)) by {
        assert(orig.skip(0) =~= orig);
    }
    while i < entries.len()
        invariant
            i <= entries@.len(),
            usable_entries(orig) == entries@.take(i as int) + usable_entries(entries@.skip(i as int)),
        decreases entries@.len() - i,
    {
        let e = entries.value_at(i);
        let keep = !e.path.as_str().is_empty() || (e.filePaths.len() > 0
            && !e.filePaths[0].as_str().is_empty());
        let ghost cur = entries@;
        assert(cur.skip(i as int).drop_first() =~= cur.skip(i + 1));
        if keep {
            assert(cur.take(i + 1) =~= cur.take(i as int) + seq![cur[i as int]]);
            assert(cur.take(i as int) + (seq![cur[i as int]] + usable_entries(cur.skip(i + 1)))
                =~= cur.take(i + 1) + usable_entries(cur.skip(i + 1)));
            i = i + 1;
        } else {
            entries.remove_at(i);
            assert(entries@.take(i as int) =~= cur.take(i as int));
            assert(entries@.skip(i as int) =~= cur.skip(i + 1));
        }
    }
    assert(entries@.take(i as int) =~= entries@);
    assert(entries@.skip(i as int).len() == 0);
    assert(entries@ + Seq::<(Seq<char>, RojoSourceMapEntry)>::empty() =~= entries@);
}

/// `a` when it holds a value, else `b`.
pub open spec fn or_else<T>(a: Option<T>, b: Option<T>) -> Option<T> {
    if a is Some {
        a
    } else {
        b
    }
}

/// The predicate "the key holds a dot".
pub open spec fn has_dot() -> spec_fn(Seq<char>) -> bool {
    |k: Seq<char>| k.contains('.')
}

/// The predicate "both `parent` and `target` are dot-separated segments of the key".
pub open spec fn has_both_segments(parent: Seq<char>, target: Seq<char>) -> spec_fn(
    Seq<char>,
) -> bool {
    |k: Seq<char>| has_segment(k, parent) && has_segment(k, target)
}

/// The predicate "`t` is a substring of the key".
pub open spec fn holds_sub(t: Seq<char>) -> spec_fn(Seq<char>) -> bool {
    |k: Seq<char>| contains_sub(k, t)
}

/// The predicate "the key, with its `@` taken out, holds `t` as a substring".
pub open spec fn stripped_holds_sub(t: Seq<char>) -> spec_fn(Seq<char>) -> bool {
    |k: Seq<char>| contains_sub(without(k, '@'), t)
}

/// `p` placed under `DataModel`, the fixed root object of the runtime tree.
pub open spec fn root_prefixed(p: Seq<char>) -> Seq<char> {
    "DataModel."@ + p
}

/// The flat-shape tier: the candidate of the entry stored under `p`.
pub open spec fn legacy_tier(ent: Seq<(Seq<char>, RojoSourceMapEntry)>, p: Seq<char>) -> Option<
    String,
> {
    match lookup(ent, p) {
        Some(e) => entry_candidate(e),
        None => None,
    }
}

/// The project-root tier: the first segment of the first key that holds a
/// dot names the project; `p` is looked up under it, bare and with `.lua`.
pub open spec fn project_root_tier(idx: Seq<(Seq<char>, String)>, p: Seq<char>) -> Option<String> {
    match first_pair(idx, has_dot()) {
        Some(q) => {
            let root = first_segment(q.0);
            if root.len() > 0 {
                or_else(lookup(idx, root + "."@ + p), lookup(idx, root + "."@ + p + ".lua"@))
            } else {
                None
            }
        },
        None => None,
    }
}

/// The fuzzy tiers, for a `p` with at least two segments: the first key that
/// holds both the last segment of `p` and the one before it as segments, else
/// the first key that holds the last segment as a substring.
pub open spec fn fuzzy_tier(idx: Seq<(Seq<char>, String)>, p: Seq<char>) -> Option<String> {
    match last_index_of(p, '.') {
        Some(d) => {
            let target = p.skip(d + 1);
            let parent = last_segment(p.take(d));
            or_else(
                first_value(idx, has_both_segments(parent, target)),
                first_value(idx, holds_sub(target)),
            )
        },
        None => None,
    }
}

/// The file path that the instance path `raw` resolves to. With `p` the path
/// cut of white space at its ends, the tiers are tried in order and the first
/// that gives a path wins: the index under `p`; under `p` with `.lua`; the
/// flat entry under `p`; the index under `DataModel.` and `p`; the
/// project-root tier; the fuzzy tiers.
pub open spec fn resolve(
    idx: Seq<(Seq<char>, String)>,
    ent: Seq<(Seq<char>, RojoSourceMapEntry)>,
    raw: Seq<char>,
) -> Option<String> {
    let p = trim(raw);
    or_else(
        lookup(idx, p),
        or_else(
            lookup(idx, p + ".lua"@),
            or_else(
                legacy_tier(ent, p),
                or_else(
                    lookup(idx, root_prefixed(p)),
                    or_else(project_root_tier(idx, p), fuzzy_tier(idx, p)),
                ),
            ),
        ),
    )
}

/// A key that is its own trimmed form and stands in the index resolves to
/// its value: the exact tier comes first.
pub proof fn law_exact_key(
    idx: Seq<(Seq<char>, String)>,
    ent: Seq<(Seq<char>, RojoSourceMapEntry)>,
    k: Seq<char>,
    v: String,
)
    requires
        lookup(idx, k) == Some(v),
        trim(k) == k,
    ensures
        resolve(idx, ent, k) == Some(v),
{
}

/// An entry's own path, when not empty, is what it stands for, whatever its
/// file paths; so a name of the flat shape that no earlier tier intercepts
/// resolves to it.
pub proof fn law_local_path_wins(
    idx: Seq<(Seq<char>, String)>,
    ent: Seq<(Seq<char>, RojoSourceMapEntry)>,
    k: Seq<char>,
    e: RojoSourceMapEntry,
)
    requires
        lookup(ent, k) == Some(e),
        e.path@.len() > 0,
        trim(k) == k,
        lookup(idx, k) is None,
        lookup(idx, k + ".lua"@) is None,
    ensures
        entry_candidate(e) == Some(e.path),
        resolve(idx, ent, k) == Some(e.path),
{
}

impl RojoSourceMap {
    /// The path index, as pairs of key and file path in order.
    pub closed spec fn index(&self) -> Seq<(Seq<char>, String)> {
        self.path_map@
    }

    /// The flat entries, as pairs of name and entry in order.
    pub closed spec fn entry_pairs(&self) -> Seq<(Seq<char>, RojoSourceMapEntry)> {
        self.entries@
    }

    /// A map of the flat shape, when `flat` decoded; else one of the tree
    /// shape, when `tree` decoded; else the error that `tree` gave.
    pub fn new(flat: Option<OrderedMap<RojoSourceMapEntry>>, tree: Result<
        RojoSourceMapNode,
        ParseError,
    >) -> (r: Result<RojoSourceMap, ParseError>)
        ensures
            flat matches Some(m) ==> (r matches Ok(s) && s.entry_pairs() == usable_entries(m@)
                && s.index() == Seq::<(Seq<char>, String)>::empty()),
            flat is None && tree is Ok ==> (r matches Ok(s) && s.index() == tree_index(
                tree->Ok_0,
            ) && s.entry_pairs() == Seq::<(Seq<char>, RojoSourceMapEntry)>::empty()),
            flat is None && tree is Err ==> r == Err::<RojoSourceMap, ParseError>(tree->Err_0),
    {
        match flat {
            Some(m) => Ok(RojoSourceMap::from_entries(m)),
            None => match tree {
                Ok(root) => Ok(RojoSourceMap::from_tree(&root)),
                Err(e) => Err(e),
            },
        }
    }

    /// A map of the flat shape, keeping only the entries that stand for a
    /// file path.
    pub fn from_entries(entries: OrderedMap<RojoSourceMapEntry>) -> (r: Self)
        ensures
            r.entry_pairs() == usable_entries(entries@),
            r.index() == Seq::<(Seq<char>, String)>::empty(),
    {
        let mut entries = entries;
        drop_unusable(&mut entries);
        RojoSourceMap { entries, path_map: OrderedMap::new() }
    }

    /// A map of the tree shape, its index built by a depth-first walk from `root`.
    pub fn from_tree(root: &RojoSourceMapNode) -> (r: Self)
        ensures
            r.index() == tree_index(*root),
            r.entry_pairs() == Seq::<(Seq<char>, RojoSourceMapEntry)>::empty(),
    {
        let mut path_map: OrderedMap<String> = OrderedMap::new();
        process_node(root, &root.name, &mut path_map);
        RojoSourceMap { entries: OrderedMap::new(), path_map }
    }

    /// The map with no entries and an empty index.
    pub fn empty() -> (r: Self)
        ensures
            r.entry_pairs() == Seq::<(Seq<char>, RojoSourceMapEntry)>::empty(),
            r.index() == Seq::<(Seq<char>, String)>::empty(),
    {
        RojoSourceMap { entries: OrderedMap::new(), path_map: OrderedMap::new() }
    }

    /// A map with both parts given.
    pub fn create_test_sourcemap(
        entries: OrderedMap<RojoSourceMapEntry>,
        path_map: OrderedMap<String>,
    ) -> (r: Self)
        ensures
            r.entry_pairs() == entries@,
            r.index() == path_map@,
    {
        RojoSourceMap { entries, path_map }
    }

    /// The position of the first key of the index that holds a dot.
    fn first_dotted_key(&self) -> (r: Option<usize>)
        ensures
            r matches Some(i) ==> i < self.index().len() && first_pair(self.index(), has_dot())
                == Some(self.index()[i as int]),
            r is None ==> first_pair(self.index(), has_dot()) is None,
    {
        let mut i: usize = 0;
        while i < self.path_map.len()
            invariant
                i <= self.index().len(),
                forall|j: int| 0 <= j < i ==> !(#[trigger] has_dot()(self.index()[j].0)),
            decreases self.index().len() - i,
        {
            let key = chars_of(self.path_map.key_at(i).as_str());
            let dot = find_char(&key, '.');
            proof {
                crate::text::lemma_index_of(key@, '.');
            }
            if dot.is_some() {
                proof {
                    lemma_first_pair_at(self.index(), has_dot(), i as int);
                }
                return Some(i);
            }
            i = i + 1;
        }
        proof {
            lemma_first_pair_none(self.index(), has_dot());
        }
        None
    }

    /// The value of the first key of the index that holds both `parent` and
    /// `target` as segments.
    fn first_with_segments(&self, parent: &Vec<char>, target: &Vec<char>) -> (r: Option<String>)
        ensures
            r == first_value(self.index(), has_both_segments(parent@, target@)),
    {
        let ghost p = has_both_segments(parent@, target@);
        let mut i: usize = 0;
        while i < self.path_map.len()
            invariant
                i <= self.index().len(),
                p == has_both_segments(parent@, target@),
                forall|j: int| 0 <= j < i ==> !(#[trigger] p(self.index()[j].0)),
            decreases self.index().len() - i,
        {
            let key = chars_of(self.path_map.key_at(i).as_str());
            if has_segment_chars(&key, parent) && has_segment_chars(&key, target) {
                proof {
                    lemma_first_pair_at(self.index(), p, i as int);
                }
                return Some(self.path_map.value_at(i).clone());
            }
            i = i + 1;
        }
        proof {
            lemma_first_pair_none(self.index(), p);
        }
        None
    }

    /// The value of the first key of the index that holds `t` as a substring.
    pub(crate) fn first_containing(&self, t: &Vec<char>) -> (r: Option<String>)
        ensures
            r == first_value(self.index(), holds_sub(t@)),
    {
        let ghost p = holds_sub(t@);
        let mut i: usize = 0;
        while i < self.path_map.len()
            invariant
                i <= self.index().len(),
                p == holds_sub(t@),
                forall|j: int| 0 <= j < i ==> !(#[trigger] p(self.index()[j].0)),
            decreases self.index().len() - i,
        {
            let key = chars_of(self.path_map.key_at(i).as_str());
            if contains_chars(&key, t) {
                proof {
                    lemma_first_pair_at(self.index(), p, i as int);
                }
                return Some(self.path_map.value_at(i).clone());
            }
            i = i + 1;
        }
        proof {
            lemma_first_pair_none(self.index(), p);
        }
        None
    }

    /// The value of the first key of the index that, with its `@` taken
    /// out, holds `t` as a substring.
    pub(crate) fn first_containing_without_at(&self, t: &Vec<char>) -> (r: Option<String>)
        ensures
            r == first_value(self.index(), stripped_holds_sub(t@)),
    {
        let ghost p = stripped_holds_sub(t@);
        let mut i: usize = 0;
        while i < self.path_map.len()
            invariant
                i <= self.index().len(),
                p == stripped_holds_sub(t@),
                forall|j: int| 0 <= j < i ==> !(#[trigger] p(self.index()[j].0)),
            decreases self.index().len() - i,
        {
            let key = chars_of(self.path_map.key_at(i).as_str());
            let stripped = remove_char(&key, '@');
            if contains_chars(&stripped, t) {
                proof {
                    lemma_first_pair_at(self.index(), p, i as int);
                }
                return Some(self.path_map.value_at(i).clone());
            }
            i = i + 1;
        }
        proof {
            lemma_first_pair_none(self.index(), p);
        }
        None
    }

    /// The project-root tier on the trimmed path `p`.
    fn project_root_lookup(&self, p: &str) -> (r: Option<String>)
        ensures
            r == project_root_tier(self.index(), p@),
    {
        match self.first_dotted_key() {
            None => None,
            Some(i) => {
                let key = self.path_map.key_at(i);
                let kc = chars_of(key.as_str());
                proof {
                    crate::text::lemma_index_of(kc@, '.');
                    crate::ordered_map::lemma_first_pair_found(self.index(), has_dot());
                }
                match find_char(&kc, '.') {
                    None => None,
                    Some(d) => {
                        if d == 0 {
                            return None;
                        }
                        let root = key.as_str().substring_char(0, d);
                        assert(root@ == first_segment(key@));
                        let bare = root.to_owned().concat(".").concat(p);
                        match self.path_map.get(bare.as_str()) {
                            Some(v) => Some(v.clone()),
                            None => {
                                let suffixed = bare.concat(".lua");
                                match self.path_map.get(suffixed.as_str()) {
                                    Some(v) => Some(v.clone()),
                                    None => None,
                                }
                            },
                        }
                    },
                }
            },
        }
    }

    /// The fuzzy tiers on the trimmed path `p`.
    fn fuzzy_lookup(&self, p: &Vec<char>) -> (r: Option<String>)
        ensures
            r == fuzzy_tier(self.index(), p@),
    {
        proof {
            crate::text::lemma_last_index_of(p@, '.');
        }
        match find_last_char(p, '.') {
            None => None,
            Some(d) => {
                let n = p.len();
                let target = slice_chars(p, d + 1, n);
                let head = slice_chars(p, 0, d);
                proof {
                    crate::text::lemma_last_index_of(head@, '.');
                }
                let hn = head.len();
                let parent = match find_last_char(&head, '.') {
                    Some(e) => slice_chars(&head, e + 1, hn),
                    None => head,
                };
                assert(target@ == p@.skip(d + 1));
                assert(head@ == p@.take(d as int));
                match self.first_with_segments(&parent, &target) {
                    Some(v) => Some(v),
                    None => self.first_containing(&target),
                }
            },
        }
    }

    /// The file path that `datamodel_path` resolves to, trying each tier in
    /// turn on the path with the white space at its ends cut off.
    pub fn get_file_path(&self, datamodel_path: &str) -> (r: Option<String>)
        ensures
            r == resolve(self.index(), self.entry_pairs(), datamodel_path@),
    {
        let raw = chars_of(datamodel_path);
        let (a, b) = trim_bounds(&raw);
        let p = datamodel_path.substring_char(a, b);
        if let Some(v) = self.path_map.get(p) {
            return Some(v.clone());
        }
        let with_lua = p.to_owned().concat(".lua");
        if let Some(v) = self.path_map.get(with_lua.as_str()) {
            return Some(v.clone());
        }
        if let Some(e) = self.entries.get(p) {
            if !e.path.as_str().is_empty() {
                return Some(e.path.clone());
            }
            if e.filePaths.len() > 0 && !e.filePaths[0].as_str().is_empty() {
                return Some(e.filePaths[0].clone());
            }
        }
        let prefixed = "DataModel.".to_owned().concat(p);
        if let Some(v) = self.path_map.get(prefixed.as_str()) {
            return Some(v.clone());
        }
        if let Some(v) = self.project_root_lookup(p) {
            return Some(v);
        }
        let trimmed = slice_chars(&raw, a, b);
        self.fuzzy_lookup(&trimmed)
    }

    pub fn get_path_map(&self) -> (r: &OrderedMap<String>)
        ensures
            r@ == self.index(),
    {
        &self.path_map
    }

    pub fn get_path_map_mut(&mut self) -> (r: &mut OrderedMap<String>)
        ensures
            r@ == old(self).index(),
            final(self).index() == final(r)@,
            final(self).entry_pairs() == old(self).entry_pairs(),
    {
        &mut self.path_map
    }

    pub fn get_entries(&self) -> (r: &OrderedMap<RojoSourceMapEntry>)
        ensures
            r@ == self.entry_pairs(),
    {
        &self.entries
    }
}

} // verus!
