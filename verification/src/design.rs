//! The design that a debugger asks about: a table of scopes keyed by path,
//! and the items that each scope owns.

use vstd::prelude::*;
use vstd::string::StrSliceExecFns;
use crate::message::text_view;
use crate::text::same_text;

verus! {

/// The kinds of scope.
#[derive(Clone, Copy, Debug, PartialEq, Eq, Structural)]
pub enum ScopeKind {
    Module,
}

/// The value of an attribute, of one of the kinds that the protocol knows.
pub enum AttributeValue {
    UnsignedInt(u64),
    SignedInt(i64),
    Text(String),
    Boolean(bool),
}

/// A named piece of simulator metadata.
pub struct Attribute {
    pub name: String,
    pub value: AttributeValue,
}

/// The attributes of one scope site or item, keyed by name: no name occurs
/// twice.
pub struct Attributes {
    entries: Vec<Attribute>,
}

/// Where and as what a scope was declared.
pub struct ScopeDefinition {
    pub src: Option<String>,
    pub name: Option<String>,
    pub attributes: Attributes,
}

/// Where a scope was put to use.
pub struct ScopeInstantiation {
    pub src: Option<String>,
    pub attributes: Attributes,
}

/// A node of the design hierarchy.
pub struct Scope {
    pub kind: ScopeKind,
    pub definition: ScopeDefinition,
    pub instantiation: ScopeInstantiation,
}

/// A scope under its path. The empty path is the anonymous root.
pub struct ScopeEntry {
    pub path: String,
    pub scope: Scope,
}

/// A value that a debugger can look at.
#[allow(inconsistent_fields)]
pub enum Item {
    Node {
        src: String,
        width: u32,
        lsb_at: u32,
        settable: bool,
        input: bool,
        output: bool,
        attributes: Attributes,
    },
    Memory {
        src: Option<String>,
        width: u32,
        lsb_at: u32,
        depth: u32,
        zero_at: u32,
        settable: bool,
        attributes: Attributes,
    },
}

/// An item under the path of its scope and its own name.
pub struct ItemEntry {
    pub scope: String,
    pub name: String,
    pub item: Item,
}

/// Why a scope or an item cannot enter a design.
#[derive(Clone, Copy, Debug, PartialEq, Eq, Structural)]
pub enum DesignError {
    /// the path, or the scope and name, already stands for another entry
    KeyTaken,
    /// the item is zero bits wide
    ZeroWidth,
    /// the memory has no rows
    ZeroDepth,
}

/// No two attributes share a name.
pub open spec fn distinct_names(attrs: Seq<Attribute>) -> bool {
    forall|i: int, j: int|
        0 <= i < attrs.len() && 0 <= j < attrs.len() && i != j ==> attrs[i].name@
            != attrs[j].name@
}

/// The first position at or behind `from` of the attribute of a name; the
/// length of `attrs` where there is none.
pub open spec fn attribute_position(attrs: Seq<Attribute>, name: Seq<char>, from: int) -> int
    decreases attrs.len() - from,
{
    if from < 0 || from >= attrs.len() {
        attrs.len() as int
    } else if attrs[from].name@ == name {
        from
    } else {
        attribute_position(attrs, name, from + 1)
    }
}

/// What `attribute_position` finds, and that nothing in front of it matches.
pub proof fn lemma_attribute_position(attrs: Seq<Attribute>, name: Seq<char>, from: int)
    requires
        0 <= from <= attrs.len(),
    ensures
        from <= attribute_position(attrs, name, from) <= attrs.len(),
        attribute_position(attrs, name, from) < attrs.len() ==> attrs[attribute_position(
            attrs,
            name,
            from,
        )].name@ == name,
        forall|k: int|
            from <= k < attribute_position(attrs, name, from) ==> (#[trigger] attrs[k]).name@
                != name,
    decreases attrs.len() - from,
{
    if from < attrs.len() && attrs[from].name@ != name {
        lemma_attribute_position(attrs, name, from + 1);
    }
}

impl View for Attributes {
    type V = Seq<Attribute>;

    /// The attributes in the order in which their names came in.
    closed spec fn view(&self) -> Seq<Attribute> {
        self.entries@
    }
}

impl Attributes {
    #[verifier::type_invariant]
    spec fn distinct(self) -> bool {
        distinct_names(self.entries@)
    }

    /// No attribute at all.
    pub fn new() -> (r: Attributes)
        ensures
            r@.len() == 0,
    {
        Attributes { entries: Vec::new() }
    }

    /// These attributes with one more behind them. Where the name is taken
    /// already, nothing is replaced: the attributes come back as they were,
    /// as the error.
    pub fn with(self, attribute: Attribute) -> (r: Result<Attributes, Attributes>)
        ensures
            match r {
                Ok(a) => {
                    &&& attribute_position(self@, attribute.name@, 0) == self@.len()
                    &&& a@ == self@.push(attribute)
                },
                Err(a) => {
                    &&& attribute_position(self@, attribute.name@, 0) < self@.len()
                    &&& a@ == self@
                },
            },
    {
        proof {
            use_type_invariant(&self);
            lemma_attribute_position(self.entries@, attribute.name@, 0);
        }
        let mut entries = self.entries;
        let mut i: usize = 0;
        while i < entries.len() && entries[i].name != attribute.name
            invariant
                0 <= i <= entries@.len(),
                attribute_position(entries@, attribute.name@, 0) == attribute_position(
                    entries@,
                    attribute.name@,
                    i as int,
                ),
            decreases entries@.len() - i,
        {
            i += 1;
        }
        if i < entries.len() {
            Err(Attributes { entries })
        } else {
            entries.push(attribute);
            Ok(Attributes { entries })
        }
    }

    /// The attributes as a list, in which no name occurs twice.
    pub fn entries(&self) -> (r: &Vec<Attribute>)
        ensures
            r@ == self@,
            distinct_names(r@),
    {
        proof {
            use_type_invariant(self);
        }
        &self.entries
    }
}

impl Item {
    /// An item has at least one bit, and a memory at least one row.
    pub open spec fn wf(&self) -> bool {
        match *self {
            Item::Node { width, .. } => width > 0,
            Item::Memory { width, depth, .. } => width > 0 && depth > 0,
        }
    }

    /// What is wrong with an item, if anything; the width is looked at first.
    pub open spec fn defect(&self) -> Option<DesignError> {
        match *self {
            Item::Node { width, .. } => if width == 0 {
                Some(DesignError::ZeroWidth)
            } else {
                None
            },
            Item::Memory { width, depth, .. } => if width == 0 {
                Some(DesignError::ZeroWidth)
            } else if depth == 0 {
                Some(DesignError::ZeroDepth)
            } else {
                None
            },
        }
    }

    /// Says what is wrong with the item, if anything.
    pub fn check(&self) -> (r: Option<DesignError>)
        ensures
            r == self.defect(),
            r is None <==> self.wf(),
    {
        match self {
            Item::Node { width, .. } => if *width == 0 {
                Some(DesignError::ZeroWidth)
            } else {
                None
            },
            Item::Memory { width, depth, .. } => if *width == 0 {
                Some(DesignError::ZeroWidth)
            } else if *depth == 0 {
                Some(DesignError::ZeroDepth)
            } else {
                None
            },
        }
    }
}

/// Whether an entry is the anonymous root: a module under the empty path,
/// with no name, no source location and no attribute.
pub open spec fn is_anonymous_root(e: ScopeEntry) -> bool {
    &&& e.path@ == Seq::<char>::empty()
    &&& e.scope.kind == ScopeKind::Module
    &&& e.scope.definition.src is None
    &&& e.scope.definition.name is None
    &&& e.scope.definition.attributes@.len() == 0
    &&& e.scope.instantiation.src is None
    &&& e.scope.instantiation.attributes@.len() == 0
}

/// Whether an entry is a module under the path `name` that is declared under
/// that name and put to use at `src`, with no attribute.
pub open spec fn is_named_module(e: ScopeEntry, name: Seq<char>, src: Option<Seq<char>>) -> bool {
    &&& e.path@ == name
    &&& e.scope.kind == ScopeKind::Module
    &&& e.scope.definition.src is None
    &&& e.scope.definition.name matches Some(n) && n@ == name
    &&& e.scope.definition.attributes@.len() == 0
    &&& match e.scope.instantiation.src {
        Some(s) => src == Some(s@),
        None => src is None,
    }
    &&& e.scope.instantiation.attributes@.len() == 0
}

/// The first position at or behind `from` whose scope has the given path;
/// the length of `scopes` where there is none.
pub open spec fn scope_position(scopes: Seq<ScopeEntry>, path: Seq<char>, from: int) -> int
    decreases scopes.len() - from,
{
    if from < 0 || from >= scopes.len() {
        scopes.len() as int
    } else if scopes[from].path@ == path {
        from
    } else {
        scope_position(scopes, path, from + 1)
    }
}

/// The first position at or behind `from` of the item `name` of `scope`; the
/// length of `items` where there is none.
pub open spec fn item_position(
    items: Seq<ItemEntry>,
    scope: Seq<char>,
    name: Seq<char>,
    from: int,
) -> int
    decreases items.len() - from,
{
    if from < 0 || from >= items.len() {
        items.len() as int
    } else if items[from].scope@ == scope && items[from].name@ == name {
        from
    } else {
        item_position(items, scope, name, from + 1)
    }
}

/// The items of `items` that `scope` owns, in their order.
pub open spec fn items_of(items: Seq<ItemEntry>, scope: Seq<char>) -> Seq<ItemEntry>
    decreases items.len(),
{
    if items.len() == 0 {
        Seq::empty()
    } else if items.last().scope@ == scope {
        items_of(items.drop_last(), scope).push(items.last())
    } else {
        items_of(items.drop_last(), scope)
    }
}

/// Whether `path` names an immediate child of the scope `parent`: the
/// parent's path, one blank, and one more segment without a blank.
pub open spec fn is_child_path(path: Seq<char>, parent: Seq<char>) -> bool {
    &&& path.len() > parent.len() + 1
    &&& path.subrange(0, parent.len() as int) == parent
    &&& path[parent.len() as int] == ' '
    &&& !path.subrange(parent.len() as int + 1, path.len() as int).contains(' ')
}

/// Whether a scope is listed for a request: under a given scope its
/// immediate children, without one the top-level scopes, whose paths are a
/// single segment or empty.
pub open spec fn is_listed(path: Seq<char>, scope: Option<Seq<char>>) -> bool {
    match scope {
        Some(parent) => is_child_path(path, parent),
        None => !path.contains(' '),
    }
}

/// The scopes of `scopes` that are listed for a request, in their order.
pub open spec fn scopes_of(scopes: Seq<ScopeEntry>, scope: Option<Seq<char>>) -> Seq<ScopeEntry>
    decreases scopes.len(),
{
    if scopes.len() == 0 {
        Seq::empty()
    } else if is_listed(scopes.last().path@, scope) {
        scopes_of(scopes.drop_last(), scope).push(scopes.last())
    } else {
        scopes_of(scopes.drop_last(), scope)
    }
}

/// What `scopes_of` selects is part of the table and is listed; it repeats no
/// path where the table repeats none; and without a given scope it starts
/// with the root where the table does.
pub proof fn lemma_scopes_of(scopes: Seq<ScopeEntry>, scope: Option<Seq<char>>)
    ensures
        forall|k: int|
            0 <= k < scopes_of(scopes, scope).len() ==> {
                let e = #[trigger] scopes_of(scopes, scope)[k];
                is_listed(e.path@, scope) && scopes.contains(e)
            },
        distinct_paths(scopes) ==> distinct_paths(scopes_of(scopes, scope)),
        scope is None && scopes.len() > 0 && scopes[0].path@.len() == 0 ==> scopes_of(
            scopes,
            scope,
        ).len() > 0 && scopes_of(scopes, scope)[0] == scopes[0],
    decreases scopes.len(),
{
    if scopes.len() > 0 {
        let front = scopes.drop_last();
        let out = scopes_of(scopes, scope);
        let head = scopes_of(front, scope);
        lemma_scopes_of(front, scope);
        assert forall|k: int| 0 <= k < out.len() implies {
            let e = #[trigger] out[k];
            is_listed(e.path@, scope) && scopes.contains(e)
        } by {
            let e = out[k];
            if k < head.len() {
                assert(e == head[k]);
                assert(front.contains(e));
                let w = choose|w: int| 0 <= w < front.len() && front[w] == e;
                assert(scopes[w] == e);
            } else {
                assert(scopes[scopes.len() - 1] == e);
            }
        }
        if distinct_paths(scopes) {
            assert(distinct_paths(front)) by {
                assert forall|i: int, j: int|
                    0 <= i < front.len() && 0 <= j < front.len() && i != j implies front[i].path@
                    != front[j].path@ by {
                    assert(front[i] == scopes[i] && front[j] == scopes[j]);
                }
            }
            assert forall|i: int, j: int|
                0 <= i < out.len() && 0 <= j < out.len() && i != j implies out[i].path@
                != out[j].path@ by {
                if i < head.len() && j < head.len() {
                    assert(out[i] == head[i] && out[j] == head[j]);
                } else {
                    let low = if i < j { i } else { j };
                    assert(out[low] == head[low]);
                    assert(front.contains(head[low]));
                    let w = choose|w: int| 0 <= w < front.len() && front[w] == head[low];
                    assert(scopes[w] == head[low]);
                    assert(scopes[scopes.len() - 1] == out[out.len() - 1]);
                }
            }
        }
        if scope is None && scopes[0].path@.len() == 0 {
            if front.len() > 0 {
                assert(front[0] == scopes[0]);
                assert(out[0] == head[0]);
            } else {
                assert(!scopes[0].path@.contains(' '));
                assert(scopes.last() == scopes[0]);
            }
        }
    }
}

/// No two scopes share a path.
pub open spec fn distinct_paths(scopes: Seq<ScopeEntry>) -> bool {
    forall|i: int, j: int|
        0 <= i < scopes.len() && 0 <= j < scopes.len() && i != j ==> scopes[i].path@
            != scopes[j].path@
}

/// No two items share both scope and name.
pub open spec fn distinct_items(items: Seq<ItemEntry>) -> bool {
    forall|i: int, j: int|
        0 <= i < items.len() && 0 <= j < items.len() && i != j ==> !(items[i].scope@
            == items[j].scope@ && items[i].name@ == items[j].name@)
}

/// Every item of the sequence is well-formed.
pub open spec fn sound_items(items: Seq<ItemEntry>) -> bool {
    forall|i: int| 0 <= i < items.len() ==> (#[trigger] items[i]).item.wf()
}

/// What `scope_position` finds is the only place a path can stand at.
pub proof fn lemma_scope_position(scopes: Seq<ScopeEntry>, path: Seq<char>, from: int)
    requires
        0 <= from <= scopes.len(),
    ensures
        from <= scope_position(scopes, path, from) <= scopes.len(),
        scope_position(scopes, path, from) < scopes.len() ==> scopes[scope_position(
            scopes,
            path,
            from,
        )].path@ == path,
        forall|k: int|
            from <= k < scope_position(scopes, path, from) ==> (#[trigger] scopes[k]).path@
                != path,
    decreases scopes.len() - from,
{
    if from < scopes.len() && scopes[from].path@ != path {
        lemma_scope_position(scopes, path, from + 1);
    }
}

/// What `item_position` finds, and that nothing in front of it matches.
pub proof fn lemma_item_position(
    items: Seq<ItemEntry>,
    scope: Seq<char>,
    name: Seq<char>,
    from: int,
)
    requires
        0 <= from <= items.len(),
    ensures
        from <= item_position(items, scope, name, from) <= items.len(),
        item_position(items, scope, name, from) < items.len() ==> {
            let p = item_position(items, scope, name, from);
            items[p].scope@ == scope && items[p].name@ == name
        },
        forall|k: int|
            from <= k < item_position(items, scope, name, from) ==> !((
            #[trigger] items[k]).scope@ == scope && items[k].name@ == name),
    decreases items.len() - from,
{
    if from < items.len() && !(items[from].scope@ == scope && items[from].name@ == name) {
        lemma_item_position(items, scope, name, from + 1);
    }
}

/// Every item that `items_of` selects is one of `items`, owned by `scope`.
pub proof fn lemma_items_of(items: Seq<ItemEntry>, scope: Seq<char>)
    ensures
        items_of(items, scope).len() <= items.len(),
        forall|k: int|
            0 <= k < items_of(items, scope).len() ==> {
                let e = #[trigger] items_of(items, scope)[k];
                e.scope@ == scope && items.contains(e)
            },
    decreases items.len(),
{
    if items.len() > 0 {
        let front = items.drop_last();
        lemma_items_of(front, scope);
        assert forall|k: int| 0 <= k < items_of(items, scope).len() implies {
            let e = #[trigger] items_of(items, scope)[k];
            e.scope@ == scope && items.contains(e)
        } by {
            let e = items_of(items, scope)[k];
            if k < items_of(front, scope).len() {
                assert(e == items_of(front, scope)[k]);
                assert(front.contains(e));
                let w = choose|w: int| 0 <= w < front.len() && front[w] == e;
                assert(items[w] == e);
            } else {
                assert(e == items.last());
                assert(items[items.len() - 1] == e);
            }
        }
    }
}

/// Whether a path holds a blank, which parts its segments.
pub fn has_blank(path: &str) -> (r: bool)
    ensures
        r == path@.contains(' '),
{
    let n = path.unicode_len();
    let mut i: usize = 0;
    while i < n
        invariant
            n == path@.len(),
            0 <= i <= n,
            forall|j: int| 0 <= j < i ==> path@[j] != ' ',
        decreases n - i,
    {
        if path.get_char(i) == ' ' {
            assert(path@[i as int] == ' ');
            return true;
        }
        i += 1;
    }
    false
}

/// Whether `path` names an immediate child of the scope `parent`.
pub fn is_child(path: &str, parent: &str) -> (r: bool)
    ensures
        r == is_child_path(path@, parent@),
{
    let n = path.unicode_len();
    let m = parent.unicode_len();
    if n <= m || n - m < 2 {
        return false;
    }
    let mut i: usize = 0;
    while i < m
        invariant
            n == path@.len(),
            m == parent@.len(),
            m + 1 < n,
            0 <= i <= m,
            forall|j: int| 0 <= j < i ==> path@[j] == parent@[j],
        decreases m - i,
    {
        if path.get_char(i) != parent.get_char(i) {
            assert(path@.subrange(0, m as int)[i as int] != parent@[i as int]);
            return false;
        }
        i += 1;
    }
    assert(path@.subrange(0, m as int) =~= parent@);
    if path.get_char(m) != ' ' {
        return false;
    }
    let ghost tail = path@.subrange(m + 1, n as int);
    let mut k: usize = m + 1;
    while k < n
        invariant
            n == path@.len(),
            m == parent@.len(),
            m + 1 <= k <= n,
            tail == path@.subrange(m + 1, n as int),
            forall|j: int| m + 1 <= j < k ==> path@[j] != ' ',
        decreases n - k,
    {
        if path.get_char(k) == ' ' {
            proof {
                let at = k as int - m as int - 1;
                assert(0 <= at < tail.len() && tail[at] == ' ');
                assert(tail.contains(' '));
            }
            return false;
        }
        k += 1;
    }
    assert forall|j: int| 0 <= j < tail.len() implies tail[j] != ' ' by {
        assert(tail[j] == path@[j + m + 1]);
    }
    true
}

/// The scope table and item catalogue of one design.
pub struct Design {
    scopes: Vec<ScopeEntry>,
    items: Vec<ItemEntry>,
}

impl Design {
    /// The scopes of the design, the root first.
    pub closed spec fn scopes(&self) -> Seq<ScopeEntry> {
        self.scopes@
    }

    /// The items of the design.
    pub closed spec fn items(&self) -> Seq<ItemEntry> {
        self.items@
    }

    /// The anonymous root stands first under the empty path, no path and no
    /// item key occurs twice, and every item is well-formed.
    pub open spec fn wf(&self) -> bool {
        &&& self.scopes().len() > 0
        &&& is_anonymous_root(self.scopes()[0])
        &&& distinct_paths(self.scopes())
        &&& distinct_items(self.items())
        &&& sound_items(self.items())
    }

    /// The design of an empty simulator: the anonymous root and nothing else.
    pub fn new() -> (d: Design)
        ensures
            d.wf(),
            d.scopes().len() == 1,
            is_anonymous_root(d.scopes()[0]),
            d.items().len() == 0,
    {
        let root = ScopeEntry {
            path: String::new(),
            scope: Scope {
                kind: ScopeKind::Module,
                definition: ScopeDefinition {
                    src: None,
                    name: None,
                    attributes: Attributes::new(),
                },
                instantiation: ScopeInstantiation { src: None, attributes: Attributes::new() },
            },
        };
        let mut scopes: Vec<ScopeEntry> = Vec::new();
        scopes.push(root);
        Design { scopes, items: Vec::new() }
    }

    /// The design that is known once the simulator has told the name of its
    /// root instance: the anonymous root, and behind it the module of that
    /// name. The empty path stays that of the anonymous root: a root instance
    /// without a name adds no scope.
    pub fn with_root_instance(name: &str, src: Option<String>) -> (d: Design)
        ensures
            d.wf(),
            d.items().len() == 0,
            is_anonymous_root(d.scopes()[0]),
            name@.len() == 0 ==> d.scopes().len() == 1,
            name@.len() != 0 ==> d.scopes().len() == 2 && is_named_module(
                d.scopes()[1],
                name@,
                match src {
                    Some(s) => Some(s@),
                    None => None,
                },
            ),
    {
        let mut d = Design::new();
        let entry = ScopeEntry {
            path: name.to_owned(),
            scope: Scope {
                kind: ScopeKind::Module,
                definition: ScopeDefinition {
                    src: None,
                    name: Some(name.to_owned()),
                    attributes: Attributes::new(),
                },
                instantiation: ScopeInstantiation { src, attributes: Attributes::new() },
            },
        };
        proof {
            lemma_scope_position(d.scopes@, name@, 0);
            assert(name@.len() == 0 <==> name@ =~= Seq::<char>::empty());
        }
        let _ = d.insert_scope(entry);
        d
    }

    /// Where the scope of a path stands in the table.
    pub fn find_scope(&self, path: &str) -> (r: Option<usize>)
        ensures
            r matches Some(i) ==> i == scope_position(self.scopes(), path@, 0) && i
                < self.scopes().len(),
            r is None ==> scope_position(self.scopes(), path@, 0) == self.scopes().len(),
    {
        let mut i: usize = 0;
        while i < self.scopes.len()
            invariant
                0 <= i <= self.scopes@.len(),
                scope_position(self.scopes@, path@, 0) == scope_position(
                    self.scopes@,
                    path@,
                    i as int,
                ),
            decreases self.scopes@.len() - i,
        {
            if same_text(&self.scopes[i].path, path) {
                return Some(i);
            }
            i += 1;
        }
        None
    }

    /// Puts a scope under its path, behind all others. A path that is taken
    /// already, that of the anonymous root among them, is refused and the
    /// design stays as it was: no scope takes the place of another.
    pub fn insert_scope(&mut self, entry: ScopeEntry) -> (r: Result<(), DesignError>)
        requires
            old(self).wf(),
        ensures
            final(self).wf(),
            final(self).items() == old(self).items(),
            if scope_position(old(self).scopes(), entry.path@, 0) < old(self).scopes().len() {
                &&& r == Err::<(), DesignError>(DesignError::KeyTaken)
                &&& final(self).scopes() == old(self).scopes()
            } else {
                &&& r is Ok
                &&& final(self).scopes() == old(self).scopes().push(entry)
            },
    {
        proof {
            lemma_scope_position(self.scopes@, entry.path@, 0);
        }
        match self.find_scope(entry.path.as_str()) {
            Some(_) => Err(DesignError::KeyTaken),
            None => {
                self.scopes.push(entry);
                Ok(())
            },
        }
    }

    /// Where the item `name` of `scope` stands in the catalogue.
    pub fn find_item(&self, scope: &str, name: &str) -> (r: Option<usize>)
        ensures
            r matches Some(i) ==> i == item_position(self.items(), scope@, name@, 0) && i
                < self.items().len(),
            r is None ==> item_position(self.items(), scope@, name@, 0) == self.items().len(),
    {
        let mut i: usize = 0;
        while i < self.items.len()
            invariant
                0 <= i <= self.items@.len(),
                item_position(self.items@, scope@, name@, 0) == item_position(
                    self.items@,
                    scope@,
                    name@,
                    i as int,
                ),
            decreases self.items@.len() - i,
        {
            if same_text(&self.items[i].scope, scope) && same_text(&self.items[i].name, name) {
                return Some(i);
            }
            i += 1;
        }
        None
    }

    /// Puts an item under its scope and name, behind all others. An item
    /// without bits, a memory without rows, and an item whose key is taken
    /// already are refused, in that order, and the design stays as it was.
    pub fn insert_item(&mut self, entry: ItemEntry) -> (r: Result<(), DesignError>)
        requires
            old(self).wf(),
        ensures
            final(self).wf(),
            final(self).scopes() == old(self).scopes(),
            match entry.item.defect() {
                Some(e) => {
                    &&& r == Err::<(), DesignError>(e)
                    &&& final(self).items() == old(self).items()
                },
                None => if item_position(old(self).items(), entry.scope@, entry.name@, 0) < old(
                    self,
                ).items().len() {
                    &&& r == Err::<(), DesignError>(DesignError::KeyTaken)
                    &&& final(self).items() == old(self).items()
                } else {
                    &&& r is Ok
                    &&& final(self).items() == old(self).items().push(entry)
                },
            },
    {
        if let Some(e) = entry.item.check() {
            return Err(e);
        }
        proof {
            lemma_item_position(self.items@, entry.scope@, entry.name@, 0);
        }
        match self.find_item(entry.scope.as_str(), entry.name.as_str()) {
            Some(_) => Err(DesignError::KeyTaken),
            None => {
                self.items.push(entry);
                Ok(())
            },
        }
    }

    /// The whole scope table: the anonymous root stands first in it, and no
    /// path twice.
    pub fn all_scopes(&self) -> (r: &Vec<ScopeEntry>)
        requires
            self.wf(),
        ensures
            r@ == self.scopes(),
            r@.len() > 0 && is_anonymous_root(r@[0]),
            distinct_paths(r@),
    {
        &self.scopes
    }

    /// The immediate children of the given scope, or without one the
    /// top-level scopes, in table order. No path is listed twice, and the
    /// top-level scopes start with the anonymous root.
    pub fn list_scopes(&self, scope: &Option<String>) -> (r: Vec<&ScopeEntry>)
        requires
            self.wf(),
        ensures
            r@.len() == scopes_of(self.scopes(), text_view(*scope)).len(),
            forall|k: int|
                0 <= k < r@.len() ==> *r@[k] == scopes_of(self.scopes(), text_view(*scope))[k],
            distinct_paths(scopes_of(self.scopes(), text_view(*scope))),
            scope is None ==> r@.len() > 0 && is_anonymous_root(*r@[0]),
    {
        let mut out: Vec<&ScopeEntry> = Vec::new();
        let mut i: usize = 0;
        while i < self.scopes.len()
            invariant
                0 <= i <= self.scopes@.len(),
                out@.len() == scopes_of(self.scopes@.take(i as int), text_view(*scope)).len(),
                forall|k: int|
                    0 <= k < out@.len() ==> *out@[k] == scopes_of(
                        self.scopes@.take(i as int),
                        text_view(*scope),
                    )[k],
            decreases self.scopes@.len() - i,
        {
            proof {
                assert(self.scopes@.take(i + 1).drop_last() =~= self.scopes@.take(i as int));
            }
            let listed = match scope {
                Some(parent) => is_child(self.scopes[i].path.as_str(), parent.as_str()),
                None => !has_blank(self.scopes[i].path.as_str()),
            };
            if listed {
                out.push(&self.scopes[i]);
            }
            i += 1;
        }
        proof {
            assert(self.scopes@.take(i as int) =~= self.scopes@);
            lemma_scopes_of(self.scopes@, text_view(*scope));
        }
        out
    }

    /// The items that a scope owns, in catalogue order; none for a path that
    /// the design does not know.
    pub fn list_items(&self, scope: &str) -> (r: Vec<&ItemEntry>)
        requires
            self.wf(),
        ensures
            r@.len() == items_of(self.items(), scope@).len(),
            forall|k: int| 0 <= k < r@.len() ==> *r@[k] == items_of(self.items(), scope@)[k],
            forall|k: int| 0 <= k < r@.len() ==> (#[trigger] r@[k]).item.wf(),
    {
        let mut out: Vec<&ItemEntry> = Vec::new();
        let mut i: usize = 0;
        while i < self.items.len()
            invariant
                0 <= i <= self.items@.len(),
                out@.len() == items_of(self.items@.take(i as int), scope@).len(),
                forall|k: int|
                    0 <= k < out@.len() ==> *out@[k] == items_of(
                        self.items@.take(i as int),
                        scope@,
                    )[k],
            decreases self.items@.len() - i,
        {
            proof {
                assert(self.items@.take(i + 1).drop_last() =~= self.items@.take(i as int));
            }
            if same_text(&self.items[i].scope, scope) {
                out.push(&self.items[i]);
            }
            i += 1;
        }
        proof {
            assert(self.items@.take(i as int) =~= self.items@);
            lemma_items_of(self.items@, scope@);
            assert forall|k: int| 0 <= k < out@.len() implies (#[trigger] out@[k]).item.wf() by {
                let e = items_of(self.items@, scope@)[k];
                assert(self.items@.contains(e));
            }
        }
        out
    }
}

} // verus!
