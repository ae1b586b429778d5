use vstd::prelude::*;
use crate::text::{push_str, string_of, str_eq};
use crate::parser::contains_string;

verus! {

/// The mathematical form of a list of strings.
pub open spec fn strs_v(v: Seq<String>) -> Seq<Seq<char>> {
    v.map_values(|s: String| s@)
}

pub open spec fn opt_str_v(o: Option<String>) -> Option<Seq<char>> {
    match o {
        Some(s) => Some(s@),
        None => None,
    }
}

#[derive(Debug, Clone, Copy, PartialEq, Eq, Structural)]
pub enum DtsVersion {
    V1,
}

#[derive(Debug, Clone, Copy, PartialEq, Eq, Structural)]
pub struct MemoryReservation {
    pub address: u64,
    pub size: u64,
}

#[derive(Debug, Clone, Copy, PartialEq, Eq, Structural)]
pub enum IncludeKind {
    DtsInclude,
    CPreprocessor,
}

#[derive(Debug, Clone, PartialEq)]
pub enum Reference {
    Label(String),
    Path(String),
}

pub enum RefV {
    Label(Seq<char>),
    Path(Seq<char>),
}

impl Reference {
    /// The reference as written in source: `&label` or `&{/path}`.
    pub fn to_text(&self) -> (r: String)
        ensures
            r@ == ref_text(self@),
    {
        proof {
            reveal_strlit("&");
            reveal_strlit("&{");
            reveal_strlit("}");
        }
        match self {
            Reference::Label(l) => {
                let mut r = string_of("&");
                push_str(&mut r, l.as_str());
                r
            },
            Reference::Path(p) => {
                let mut r = string_of("&{");
                push_str(&mut r, p.as_str());
                push_str(&mut r, "}");
                r
            },
        }
    }
}

/// A reference as written in source.
pub open spec fn ref_text(r: RefV) -> Seq<char> {
    match r {
        RefV::Label(l) => "&"@ + l,
        RefV::Path(p) => "&{"@ + p + "}"@,
    }
}

impl View for Reference {
    type V = RefV;

    open spec fn view(&self) -> RefV {
        match self {
            Reference::Label(s) => RefV::Label(s@),
            Reference::Path(s) => RefV::Path(s@),
        }
    }
}

#[derive(Debug, Clone, PartialEq)]
pub enum Cell {
    Literal(u64),
    Reference(Reference),
    Expression(String),
    Macro(String, String),
}

pub enum CellV {
    Literal(u64),
    Reference(RefV),
    Expression(Seq<char>),
    Macro(Seq<char>, Seq<char>),
}

impl View for Cell {
    type V = CellV;

    open spec fn view(&self) -> CellV {
        match self {
            Cell::Literal(n) => CellV::Literal(*n),
            Cell::Reference(r) => CellV::Reference(r@),
            Cell::Expression(e) => CellV::Expression(e@),
            Cell::Macro(n, a) => CellV::Macro(n@, a@),
        }
    }
}

pub open spec fn cells_v(v: Seq<Cell>) -> Seq<CellV> {
    v.map_values(|c: Cell| c@)
}

#[derive(Debug, Clone, PartialEq)]
pub enum ValuePart {
    StringLiteral(String),
    CellArray(Vec<Cell>),
    ByteString(Vec<u8>),
    Reference(Reference),
}

pub enum PartV {
    StringLiteral(Seq<char>),
    CellArray(Seq<CellV>),
    ByteString(Seq<u8>),
    Reference(RefV),
}

impl View for ValuePart {
    type V = PartV;

    open spec fn view(&self) -> PartV {
        match self {
            ValuePart::StringLiteral(s) => PartV::StringLiteral(s@),
            ValuePart::CellArray(c) => PartV::CellArray(cells_v(c@)),
            ValuePart::ByteString(b) => PartV::ByteString(b@),
            ValuePart::Reference(r) => PartV::Reference(r@),
        }
    }
}

#[derive(Debug, Clone, PartialEq)]
pub struct PropertyValue(pub Vec<ValuePart>);

impl View for PropertyValue {
    type V = Seq<PartV>;

    open spec fn view(&self) -> Seq<PartV> {
        self.0@.map_values(|p: ValuePart| p@)
    }
}

#[derive(Debug, Clone, PartialEq)]
pub struct Property {
    pub name: String,
    pub value: Option<PropertyValue>,
    pub labels: Vec<String>,
}

pub struct PropV {
    pub name: Seq<char>,
    pub value: Option<Seq<PartV>>,
    pub labels: Seq<Seq<char>>,
}

impl Property {
    /// A property without a value.
    pub fn new_boolean(name: &str) -> (p: Property)
        ensures
            p@ == (PropV { name: name@, value: None, labels: Seq::empty() }),
    {
        let p = Property { name: string_of(name), value: None, labels: Vec::new() };
        assert(strs_v(p.labels@) =~= Seq::<Seq<char>>::empty());
        p
    }

    /// A property whose value is one string.
    pub fn new_string(name: &str, val: &str) -> (p: Property)
        ensures
            p@ == (PropV {
                name: name@,
                value: Some(seq![PartV::StringLiteral(val@)]),
                labels: Seq::empty(),
            }),
    {
        let mut parts = Vec::new();
        parts.push(ValuePart::StringLiteral(string_of(val)));
        let p = Property { name: string_of(name), value: Some(PropertyValue(parts)), labels: Vec::new() };
        assert(strs_v(p.labels@) =~= Seq::<Seq<char>>::empty());
        assert(parts@.map_values(|x: ValuePart| x@) =~= seq![PartV::StringLiteral(val@)]);
        p
    }

    /// A property whose value is one cell array.
    pub fn new_cells(name: &str, cells: Vec<Cell>) -> (p: Property)
        ensures
            p@ == (PropV {
                name: name@,
                value: Some(seq![PartV::CellArray(cells_v(cells@))]),
                labels: Seq::empty(),
            }),
    {
        let ghost cv = cells_v(cells@);
        let mut parts = Vec::new();
        parts.push(ValuePart::CellArray(cells));
        let p = Property { name: string_of(name), value: Some(PropertyValue(parts)), labels: Vec::new() };
        assert(strs_v(p.labels@) =~= Seq::<Seq<char>>::empty());
        assert(parts@.map_values(|x: ValuePart| x@) =~= seq![PartV::CellArray(cv)]);
        p
    }

    /// Whether the property has no value.
    pub fn is_boolean(&self) -> (b: bool)
        ensures
            b == (self@.value is None),
    {
        self.value.is_none()
    }

    /// The value, when it is exactly one string.
    pub fn as_string(&self) -> (r: Option<&str>)
        ensures
            match prop_string(self@) {
                Some(v) => r is Some && r->0@ == v,
                None => r is None,
            },
    {
        let val = match &self.value {
            Some(v) => v,
            None => {
                return None;
            },
        };
        if val.0.len() == 1 {
            match &val.0[0] {
                ValuePart::StringLiteral(s) => {
                    return Some(s.as_str());
                },
                _ => {},
            }
        }
        None
    }

    /// The value, when every part of it is a string.
    pub fn as_string_list(&self) -> (r: Option<Vec<&str>>)
        ensures
            match prop_string_list(self@) {
                Some(v) => r is Some && r->0@.map_values(|x: &str| x@) == v,
                None => r is None,
            },
    {
        let val = match &self.value {
            Some(v) => v,
            None => {
                return None;
            },
        };
        let ghost parts = val@;
        let mut strings: Vec<&str> = Vec::new();
        let mut k: usize = 0;
        while k < val.0.len()
            invariant
                k <= val.0.len(),
                parts == val@,
                self@.value == Some(parts),
                parts.len() == val.0.len(),
                forall|m: int| 0 <= m < k ==> #[trigger] parts[m] is StringLiteral,
                strings@.map_values(|x: &str| x@) =~= parts.subrange(0, k as int).map_values(
                    |p: PartV| p->StringLiteral_0,
                ),
            decreases val.0.len() - k,
        {
            match &val.0[k] {
                ValuePart::StringLiteral(s) => {
                    let ghost old_strings = strings@;
                    strings.push(s.as_str());
                    assert(parts.subrange(0, k + 1).map_values(|p: PartV| p->StringLiteral_0)
                        =~= parts.subrange(0, k as int).map_values(|p: PartV| p->StringLiteral_0).push(
                        s@,
                    ));
                    assert(strings@.map_values(|x: &str| x@) =~= old_strings.map_values(|x: &str| x@).push(
                        s@,
                    ));
                },
                _ => {
                    assert(!(parts[k as int] is StringLiteral));
                    return None;
                },
            }
            k = k + 1;
        }
        assert(parts.subrange(0, parts.len() as int) =~= parts);
        Some(strings)
    }

    /// The value, when it is one cell array of plain numbers.
    pub fn as_u64_cells(&self) -> (r: Option<Vec<u64>>)
        ensures
            match prop_u64_cells(self@) {
                Some(v) => r is Some && r->0@ == v,
                None => r is None,
            },
    {
        let val = match &self.value {
            Some(v) => v,
            None => {
                return None;
            },
        };
        if val.0.len() != 1 {
            return None;
        }
        match &val.0[0] {
            ValuePart::CellArray(cells) => {
                let ghost cv = cells_v(cells@);
                let mut nums: Vec<u64> = Vec::new();
                let mut k: usize = 0;
                while k < cells.len()
                    invariant
                        k <= cells.len(),
                        cv == cells_v(cells@),
                        self@.value == Some(val@),
                        val@.len() == 1,
                        val@[0] == PartV::CellArray(cv),
                        cv.len() == cells.len(),
                        forall|m: int| 0 <= m < k ==> #[trigger] cv[m] is Literal,
                        nums@ =~= cv.subrange(0, k as int).map_values(|c: CellV| c->Literal_0),
                    decreases cells.len() - k,
                {
                    match &cells[k] {
                        Cell::Literal(n) => {
                            nums.push(*n);
                        },
                        _ => {
                            assert(!(cv[k as int] is Literal));
                            return None;
                        },
                    }
                    k = k + 1;
                }
                assert(cv.subrange(0, cv.len() as int) =~= cv);
                Some(nums)
            },
            _ => None,
        }
    }
}

/// The value of a property that is exactly one string.
pub open spec fn prop_string(p: PropV) -> Option<Seq<char>> {
    match p.value {
        Some(parts) => if parts.len() == 1 && parts[0] is StringLiteral {
            Some(parts[0]->StringLiteral_0)
        } else {
            None
        },
        None => None,
    }
}

/// The value of a property all of whose parts are strings.
pub open spec fn prop_string_list(p: PropV) -> Option<Seq<Seq<char>>> {
    match p.value {
        Some(parts) => if forall|m: int| 0 <= m < parts.len() ==> #[trigger] parts[m] is StringLiteral {
            Some(parts.map_values(|x: PartV| x->StringLiteral_0))
        } else {
            None
        },
        None => None,
    }
}

/// The numbers of a property that is one cell array of plain numbers.
pub open spec fn prop_u64_cells(p: PropV) -> Option<Seq<u64>> {
    match p.value {
        Some(parts) => if parts.len() == 1 && parts[0] is CellArray && (forall|m: int|
            0 <= m < parts[0]->CellArray_0.len() ==> #[trigger] parts[0]->CellArray_0[m] is Literal) {
            Some(parts[0]->CellArray_0.map_values(|c: CellV| c->Literal_0))
        } else {
            None
        },
        None => None,
    }
}

impl View for Property {
    type V = PropV;

    open spec fn view(&self) -> PropV {
        PropV {
            name: self.name@,
            value: match self.value {
                Some(v) => Some(v@),
                None => None,
            },
            labels: strs_v(self.labels@),
        }
    }
}

pub open spec fn props_v(v: Seq<Property>) -> Seq<PropV> {
    v.map_values(|p: Property| p@)
}

#[derive(Debug, PartialEq)]
pub struct Node {
    pub name: String,
    pub unit_address: Option<String>,
    pub labels: Vec<String>,
    pub properties: Vec<Property>,
    pub children: Vec<Node>,
    pub deleted_properties: Vec<String>,
    pub deleted_nodes: Vec<String>,
}

pub struct NodeV {
    pub name: Seq<char>,
    pub unit_address: Option<Seq<char>>,
    pub labels: Seq<Seq<char>>,
    pub properties: Seq<PropV>,
    pub children: Seq<NodeV>,
    pub deleted_properties: Seq<Seq<char>>,
    pub deleted_nodes: Seq<Seq<char>>,
}

pub open spec fn node_v(n: Node) -> NodeV
    decreases n,
{
    NodeV {
        name: n.name@,
        unit_address: opt_str_v(n.unit_address),
        labels: strs_v(n.labels@),
        properties: props_v(n.properties@),
        children: Seq::new(
            n.children@.len(),
            |i: int|
                if 0 <= i < n.children@.len() {
                    node_v(n.children@[i])
                } else {
                    arbitrary()
                },
        ),
        deleted_properties: strs_v(n.deleted_properties@),
        deleted_nodes: strs_v(n.deleted_nodes@),
    }
}

impl Node {
    /// A node with the given name and nothing else.
    pub fn new(name: &str) -> (n: Node)
        ensures
            n@ == bare_node_v(name@),
    {
        let n = Node {
            name: string_of(name),
            unit_address: None,
            labels: Vec::new(),
            properties: Vec::new(),
            children: Vec::new(),
            deleted_properties: Vec::new(),
            deleted_nodes: Vec::new(),
        };
        proof {
            assert(strs_v(n.labels@) =~= Seq::<Seq<char>>::empty());
            assert(props_v(n.properties@) =~= Seq::<PropV>::empty());
            assert(strs_v(n.deleted_properties@) =~= Seq::<Seq<char>>::empty());
            assert(strs_v(n.deleted_nodes@) =~= Seq::<Seq<char>>::empty());
            assert(node_v(n).children =~= Seq::<NodeV>::empty());
        }
        n
    }

    /// `name@unit_address`, or just `name` when there is no unit address.
    pub fn full_name(&self) -> (r: String)
        ensures
            r@ == full_name_v(self@),
    {
        match &self.unit_address {
            Some(addr) => {
                let mut r = string_of(self.name.as_str());
                push_str(&mut r, "@");
                push_str(&mut r, addr.as_str());
                proof {
                    reveal_strlit("@");
                }
                r
            },
            None => string_of(self.name.as_str()),
        }
    }

    /// The first property called `name`.
    pub fn property(&self, name: &str) -> (r: Option<&Property>)
        ensures
            match first_prop(props_v(self.properties@), name@) {
                Some(k) => r == Some(&self.properties@[k]),
                None => r is None,
            },
    {
        let mut k: usize = 0;
        while k < self.properties.len()
            invariant
                k <= self.properties.len(),
                first_prop(props_v(self.properties@), name@) == first_prop_from(
                    props_v(self.properties@),
                    name@,
                    k as int,
                ),
            decreases self.properties.len() - k,
        {
            if str_eq(self.properties[k].name.as_str(), name) {
                return Some(&self.properties[k]);
            }
            k = k + 1;
        }
        None
    }

    /// The first direct child whose node name (without unit address) is `name`.
    pub fn child(&self, name: &str) -> (r: Option<&Node>)
        ensures
            match first_child(self@.children, name@) {
                Some(k) => r == Some(&self.children@[k]),
                None => r is None,
            },
    {
        let mut k: usize = 0;
        while k < self.children.len()
            invariant
                k <= self.children.len(),
                self@.children.len() == self.children@.len(),
                forall|m: int| 0 <= m < self.children@.len() ==> #[trigger] self@.children[m] == self.children@[m]@,
                first_child(self@.children, name@) == first_child_from(self@.children, name@, k as int),
            decreases self.children.len() - k,
        {
            if str_eq(self.children[k].name.as_str(), name) {
                return Some(&self.children[k]);
            }
            k = k + 1;
        }
        None
    }

    /// The first direct child whose full name (`name@unit_address`) is `full_name`.
    pub fn child_by_full_name(&self, full_name: &str) -> (r: Option<&Node>)
        ensures
            match first_child_full(self@.children, full_name@) {
                Some(k) => r == Some(&self.children@[k]),
                None => r is None,
            },
    {
        let mut k: usize = 0;
        while k < self.children.len()
            invariant
                k <= self.children.len(),
                self@.children.len() == self.children@.len(),
                forall|m: int| 0 <= m < self.children@.len() ==> #[trigger] self@.children[m] == self.children@[m]@,
                first_child_full(self@.children, full_name@) == first_child_full_from(
                    self@.children,
                    full_name@,
                    k as int,
                ),
            decreases self.children.len() - k,
        {
            let f = self.children[k].full_name();
            if str_eq(f.as_str(), full_name) {
                return Some(&self.children[k]);
            }
            k = k + 1;
        }
        None
    }

    /// Calls `f(node, depth)` on every node of this subtree, depth first,
    /// parents before children, starting at `depth`: once for each entry of
    /// `self.preorder(depth)`, in that order.
    pub fn walk<F: Fn(&Node, usize)>(&self, f: &F, depth: usize)
        requires
            depth + node_height(*self) <= usize::MAX,
            forall|n: &Node, d: usize| #[trigger] f.requires((n, d)),
    {
        let all = self.preorder(depth);
        let mut i: usize = 0;
        while i < all.len()
            invariant
                forall|n: &Node, d: usize| #[trigger] f.requires((n, d)),
            decreases all.len() - i,
        {
            let p = all[i];
            f(p.0, p.1);
            i = i + 1;
        }
    }

    /// Every node of this subtree with its depth, in the order in which
    /// `walk` visits them: depth first, parents before children, this node at
    /// `depth`.
    pub fn preorder(&self, depth: usize) -> (r: Vec<(&Node, usize)>)
        requires
            depth + node_height(*self) <= usize::MAX,
        ensures
            r@.map_values(|p: (&Node, usize)| (p.0@, p.1 as int)) == node_preorder(*self, depth as int),
        decreases *self,
    {
        let mut out: Vec<(&Node, usize)> = Vec::new();
        out.push((self, depth));
        let ghost own = seq![(self@, depth as int)];
        assert(out@.map_values(|p: (&Node, usize)| (p.0@, p.1 as int)) =~= own);
        let mut c: usize = 0;
        while c < self.children.len()
            invariant
                c <= self.children.len(),
                depth + node_height(*self) <= usize::MAX,
                own == seq![(self@, depth as int)],
                out@.map_values(|p: (&Node, usize)| (p.0@, p.1 as int)) == own
                    + preorder_children(*self, depth as int, c as int),
            decreases self.children.len() - c,
        {
            proof {
                lemma_child_height(*self, c as int);
            }
            let ghost before = out@;
            let sub = self.children[c].preorder(depth + 1);
            let mut j: usize = 0;
            while j < sub.len()
                invariant
                    j <= sub.len(),
                    out@ == before + sub@.subrange(0, j as int),
                decreases sub.len() - j,
            {
                out.push(sub[j]);
                j = j + 1;
                assert(out@ =~= before + sub@.subrange(0, j as int));
            }
            assert(sub@.subrange(0, sub.len() as int) =~= sub@);
            assert((before + sub@).map_values(|p: (&Node, usize)| (p.0@, p.1 as int))
                =~= before.map_values(|p: (&Node, usize)| (p.0@, p.1 as int))
                + sub@.map_values(|p: (&Node, usize)| (p.0@, p.1 as int)));
            assert(preorder_children(*self, depth as int, c + 1) == preorder_children(
                *self,
                depth as int,
                c as int,
            ) + node_preorder(self.children@[c as int], depth + 1));
            assert(out@.map_values(|p: (&Node, usize)| (p.0@, p.1 as int)) =~= own
                + preorder_children(*self, depth as int, c + 1));
            c = c + 1;
        }
        out
    }

    /// Every node of this subtree (depth first, parents before children) that
    /// carries `label`.
    pub fn find_by_label(&self, label: &str) -> (r: Vec<&Node>)
        ensures
            r@.map_values(|n: &Node| n@) == labelled(*self, label@),
        decreases *self,
    {
        let mut results: Vec<&Node> = Vec::new();
        let ghost l = label@;
        let found = contains_string(&self.labels, &string_of(label));
        if found {
            results.push(self);
        }
        let ghost own = results@.map_values(|n: &Node| n@);
        assert(own == (if strs_v(self.labels@).contains(l) { seq![self@] } else { Seq::empty() }));
        let mut c: usize = 0;
        while c < self.children.len()
            invariant
                c <= self.children.len(),
                l == label@,
                results@.map_values(|n: &Node| n@) == own + labelled_children(*self, c as int, l),
            decreases self.children.len() - c,
        {
            let ghost before = results@;
            let sub = self.children[c].find_by_label(label);
            let mut j: usize = 0;
            while j < sub.len()
                invariant
                    j <= sub.len(),
                    results@ == before + sub@.subrange(0, j as int),
                decreases sub.len() - j,
            {
                results.push(sub[j]);
                j = j + 1;
                assert(results@ =~= before + sub@.subrange(0, j as int));
            }
            assert(sub@.subrange(0, sub.len() as int) =~= sub@);
            assert((before + sub@).map_values(|n: &Node| n@) =~= before.map_values(|n: &Node| n@)
                + sub@.map_values(|n: &Node| n@));
            assert(labelled_children(*self, c + 1, l) == labelled_children(*self, c as int, l)
                + labelled(self.children@[c as int], l));
            assert(results@.map_values(|n: &Node| n@) =~= own + labelled_children(*self, c + 1, l));
            c = c + 1;
        }
        results
    }
}

/// The number of levels below `n`.
pub open spec fn node_height(n: Node) -> nat
    decreases n,
{
    if n.children@.len() == 0 {
        0
    } else {
        1 + max_height(n, n.children@.len() as int)
    }
}

/// The greatest height among the first `k` children of `n`.
pub open spec fn max_height(n: Node, k: int) -> nat
    decreases n, k,
{
    if k <= 0 || k > n.children@.len() {
        0
    } else {
        let a = max_height(n, k - 1);
        let b = node_height(n.children@[k - 1]);
        if a >= b {
            a
        } else {
            b
        }
    }
}

pub proof fn lemma_child_height(n: Node, k: int)
    requires
        0 <= k < n.children@.len(),
    ensures
        node_height(n.children@[k]) + 1 <= node_height(n),
{
    lemma_max_height(n, n.children@.len() as int, k);
}

pub proof fn lemma_max_height(n: Node, j: int, k: int)
    requires
        0 <= k < j <= n.children@.len(),
    ensures
        node_height(n.children@[k]) <= max_height(n, j),
    decreases j,
{
    if k < j - 1 {
        lemma_max_height(n, j - 1, k);
    }
}

/// Nodes with the same view have the same height.
pub proof fn lemma_height_of_view(a: Node, b: Node)
    requires
        a@ == b@,
    ensures
        node_height(a) == node_height(b),
    decreases a, a.children@.len() + 1,
{
    assert(a@.children.len() == a.children@.len());
    assert(b@.children.len() == b.children@.len());
    lemma_max_height_of_view(a, b, a.children@.len() as int);
}

pub proof fn lemma_max_height_of_view(a: Node, b: Node, k: int)
    requires
        a@ == b@,
        k <= a.children@.len(),
    ensures
        max_height(a, k) == max_height(b, k),
    decreases a, k,
{
    assert(a@.children.len() == a.children@.len());
    assert(b@.children.len() == b.children@.len());
    if 0 < k {
        lemma_max_height_of_view(a, b, k - 1);
        assert(a@.children[k - 1] == a.children@[k - 1]@);
        assert(b@.children[k - 1] == b.children@[k - 1]@);
        assert(decreases_to!(a => a.children@[k - 1]));
        lemma_height_of_view(a.children@[k - 1], b.children@[k - 1]);
    }
}

/// The full name of a node.
pub open spec fn full_name_v(n: NodeV) -> Seq<char> {
    match n.unit_address {
        Some(a) => n.name + "@"@ + a,
        None => n.name,
    }
}

/// The position of the first property from `k` on that is called `name`.
pub open spec fn first_prop_from(ps: Seq<PropV>, name: Seq<char>, k: int) -> Option<int>
    decreases ps.len() - k,
{
    if !(0 <= k < ps.len()) {
        None
    } else if ps[k].name == name {
        Some(k)
    } else {
        first_prop_from(ps, name, k + 1)
    }
}

pub open spec fn first_prop(ps: Seq<PropV>, name: Seq<char>) -> Option<int> {
    first_prop_from(ps, name, 0)
}

/// The position found is that of a property of that name.
pub proof fn lemma_first_prop_from(ps: Seq<PropV>, name: Seq<char>, k: int)
    requires
        0 <= k,
    ensures
        first_prop_from(ps, name, k) matches Some(i) ==> k <= i < ps.len() && ps[i].name == name,
    decreases ps.len() - k,
{
    if 0 <= k < ps.len() && ps[k].name != name {
        lemma_first_prop_from(ps, name, k + 1);
    }
}

pub open spec fn first_child_from(cs: Seq<NodeV>, name: Seq<char>, k: int) -> Option<int>
    decreases cs.len() - k,
{
    if !(0 <= k < cs.len()) {
        None
    } else if cs[k].name == name {
        Some(k)
    } else {
        first_child_from(cs, name, k + 1)
    }
}

pub open spec fn first_child(cs: Seq<NodeV>, name: Seq<char>) -> Option<int> {
    first_child_from(cs, name, 0)
}

pub open spec fn first_child_full_from(cs: Seq<NodeV>, name: Seq<char>, k: int) -> Option<int>
    decreases cs.len() - k,
{
    if !(0 <= k < cs.len()) {
        None
    } else if full_name_v(cs[k]) == name {
        Some(k)
    } else {
        first_child_full_from(cs, name, k + 1)
    }
}

pub open spec fn first_child_full(cs: Seq<NodeV>, name: Seq<char>) -> Option<int> {
    first_child_full_from(cs, name, 0)
}

/// The nodes of the subtree at `n` that carry label `l`, parents before children.
pub open spec fn labelled(n: Node, l: Seq<char>) -> Seq<NodeV>
    decreases n, 1int, 0int,
{
    (if strs_v(n.labels@).contains(l) {
        seq![n@]
    } else {
        Seq::empty()
    }) + labelled_children(n, n.children@.len() as int, l)
}

/// The nodes of the subtree `n` with their depths, `n` itself at depth `d`,
/// parents before children and children in order.
pub open spec fn node_preorder(n: Node, d: int) -> Seq<(NodeV, int)>
    decreases n, 1int, 0int,
{
    seq![(n@, d)] + preorder_children(n, d, n.children@.len() as int)
}

/// The pre-order lists of the first `k` children of `n`, one after another,
/// each child at depth `d + 1`.
pub open spec fn preorder_children(n: Node, d: int, k: int) -> Seq<(NodeV, int)>
    decreases n, 0int, k,
{
    if k <= 0 || k > n.children@.len() {
        Seq::empty()
    } else {
        preorder_children(n, d, k - 1) + node_preorder(n.children@[k - 1], d + 1)
    }
}

/// The labelled nodes of the first `k` children of `n`.
pub open spec fn labelled_children(n: Node, k: int, l: Seq<char>) -> Seq<NodeV>
    decreases n, 0int, k,
{
    if k <= 0 || k > n.children@.len() {
        Seq::empty()
    } else {
        labelled_children(n, k - 1, l) + labelled(n.children@[k - 1], l)
    }
}

impl View for Node {
    type V = NodeV;

    open spec fn view(&self) -> NodeV {
        node_v(*self)
    }
}


pub open spec fn nodes_v(v: Seq<Node>) -> Seq<NodeV> {
    v.map_values(|n: Node| n@)
}

#[derive(Debug, Clone, PartialEq)]
pub struct Include {
    pub path: String,
    pub kind: IncludeKind,
}

pub struct IncludeV {
    pub path: Seq<char>,
    pub kind: IncludeKind,
}

impl View for Include {
    type V = IncludeV;

    open spec fn view(&self) -> IncludeV {
        IncludeV { path: self.path@, kind: self.kind }
    }
}

#[derive(Debug, PartialEq)]
pub struct ReferenceNode {
    pub reference: Reference,
    pub node: Node,
}

pub struct RefNodeV {
    pub reference: RefV,
    pub node: NodeV,
}

impl View for ReferenceNode {
    type V = RefNodeV;

    open spec fn view(&self) -> RefNodeV {
        RefNodeV { reference: self.reference@, node: self.node@ }
    }
}

#[derive(Debug, PartialEq)]
pub struct DeviceTree {
    pub version: Option<DtsVersion>,
    pub is_plugin: bool,
    pub memory_reservations: Vec<MemoryReservation>,
    pub includes: Vec<Include>,
    pub root: Option<Node>,
    pub reference_nodes: Vec<ReferenceNode>,
}

pub struct TreeV {
    pub version: Option<DtsVersion>,
    pub is_plugin: bool,
    pub memory_reservations: Seq<MemoryReservation>,
    pub includes: Seq<IncludeV>,
    pub root: Option<NodeV>,
    pub reference_nodes: Seq<RefNodeV>,
}

impl View for DeviceTree {
    type V = TreeV;

    open spec fn view(&self) -> TreeV {
        TreeV {
            version: self.version,
            is_plugin: self.is_plugin,
            memory_reservations: self.memory_reservations@,
            includes: self.includes@.map_values(|i: Include| i@),
            root: match self.root {
                Some(n) => Some(n@),
                None => None,
            },
            reference_nodes: self.reference_nodes@.map_values(|r: ReferenceNode| r@),
        }
    }
}

impl DeviceTree {
    /// A tree with no version, no root and no entries.
    pub fn new() -> (t: DeviceTree)
        ensures
            t@ == empty_tree_v(),
    {
        let t = DeviceTree {
            version: None,
            is_plugin: false,
            memory_reservations: Vec::new(),
            includes: Vec::new(),
            root: None,
            reference_nodes: Vec::new(),
        };
        assert(t@.includes =~= Seq::<IncludeV>::empty());
        assert(t@.reference_nodes =~= Seq::<RefNodeV>::empty());
        t
    }
}

/// The tree that holds nothing: no version, no root, no entries.
pub open spec fn empty_tree_v() -> TreeV {
    TreeV {
        version: None,
        is_plugin: false,
        memory_reservations: Seq::empty(),
        includes: Seq::empty(),
        root: None,
        reference_nodes: Seq::empty(),
    }
}

/// A node with the given name and nothing else.
pub open spec fn bare_node_v(name: Seq<char>) -> NodeV {
    NodeV {
        name: name,
        unit_address: None,
        labels: Seq::empty(),
        properties: Seq::empty(),
        children: Seq::empty(),
        deleted_properties: Seq::empty(),
        deleted_nodes: Seq::empty(),
    }
}

// -------------------------------------------------------------------------
// Copies
// -------------------------------------------------------------------------

/// A copy of a list of strings.
pub fn copy_strings(v: &Vec<String>) -> (r: Vec<String>)
    ensures
        strs_v(r@) == strs_v(v@),
{
    let mut r: Vec<String> = Vec::new();
    let mut k: usize = 0;
    while k < v.len()
        invariant
            k <= v.len(),
            strs_v(r@) =~= strs_v(v@.take(k as int)),
        decreases v.len() - k,
    {
        r.push(string_of(v[k].as_str()));
        assert(strs_v(v@.take(k + 1)) =~= strs_v(v@.take(k as int)).push(v@[k as int]@));
        k = k + 1;
    }
    assert(v@.take(k as int) =~= v@);
    r
}

impl Reference {
    /// A copy of the reference.
    pub fn copy(&self) -> (r: Reference)
        ensures
            r@ == self@,
    {
        match self {
            Reference::Label(l) => Reference::Label(string_of(l.as_str())),
            Reference::Path(p) => Reference::Path(string_of(p.as_str())),
        }
    }
}

impl Cell {
    /// A copy of the cell.
    pub fn copy(&self) -> (r: Cell)
        ensures
            r@ == self@,
    {
        match self {
            Cell::Literal(n) => Cell::Literal(*n),
            Cell::Reference(r) => Cell::Reference(r.copy()),
            Cell::Expression(e) => Cell::Expression(string_of(e.as_str())),
            Cell::Macro(n, a) => Cell::Macro(string_of(n.as_str()), string_of(a.as_str())),
        }
    }
}

impl ValuePart {
    /// A copy of the value part.
    pub fn copy(&self) -> (r: ValuePart)
        ensures
            r@ == self@,
    {
        match self {
            ValuePart::StringLiteral(s) => ValuePart::StringLiteral(string_of(s.as_str())),
            ValuePart::CellArray(cells) => {
                let mut r: Vec<Cell> = Vec::new();
                let mut k: usize = 0;
                while k < cells.len()
                    invariant
                        k <= cells.len(),
                        cells_v(r@) =~= cells_v(cells@.take(k as int)),
                    decreases cells.len() - k,
                {
                    r.push(cells[k].copy());
                    assert(cells_v(cells@.take(k + 1)) =~= cells_v(cells@.take(k as int)).push(
                        cells@[k as int]@,
                    ));
                    k = k + 1;
                }
                assert(cells@.take(k as int) =~= cells@);
                ValuePart::CellArray(r)
            },
            ValuePart::ByteString(bytes) => {
                let mut r: Vec<u8> = Vec::new();
                let mut k: usize = 0;
                while k < bytes.len()
                    invariant
                        k <= bytes.len(),
                        r@ =~= bytes@.take(k as int),
                    decreases bytes.len() - k,
                {
                    r.push(bytes[k]);
                    k = k + 1;
                }
                assert(bytes@.take(k as int) =~= bytes@);
                ValuePart::ByteString(r)
            },
            ValuePart::Reference(r) => ValuePart::Reference(r.copy()),
        }
    }
}

impl PropertyValue {
    /// A copy of the value.
    pub fn copy(&self) -> (r: PropertyValue)
        ensures
            r@ == self@,
    {
        let mut parts: Vec<ValuePart> = Vec::new();
        let mut k: usize = 0;
        while k < self.0.len()
            invariant
                k <= self.0.len(),
                parts@.map_values(|p: ValuePart| p@) =~= self.0@.take(k as int).map_values(
                    |p: ValuePart| p@,
                ),
            decreases self.0.len() - k,
        {
            parts.push(self.0[k].copy());
            assert(self.0@.take(k + 1).map_values(|p: ValuePart| p@) =~= self.0@.take(
                k as int,
            ).map_values(|p: ValuePart| p@).push(self.0@[k as int]@));
            k = k + 1;
        }
        assert(self.0@.take(k as int) =~= self.0@);
        PropertyValue(parts)
    }
}

impl Property {
    /// A copy of the property.
    pub fn copy(&self) -> (r: Property)
        ensures
            r@ == self@,
    {
        Property {
            name: string_of(self.name.as_str()),
            value: match &self.value {
                Some(v) => Some(v.copy()),
                None => None,
            },
            labels: copy_strings(&self.labels),
        }
    }
}

impl Node {
    /// A copy of the node and all that it holds.
    pub fn copy(&self) -> (r: Node)
        ensures
            r@ == self@,
        decreases *self,
    {
        let mut props: Vec<Property> = Vec::new();
        let mut k: usize = 0;
        while k < self.properties.len()
            invariant
                k <= self.properties.len(),
                props_v(props@) =~= props_v(self.properties@.take(k as int)),
            decreases self.properties.len() - k,
        {
            props.push(self.properties[k].copy());
            assert(props_v(self.properties@.take(k + 1)) =~= props_v(
                self.properties@.take(k as int),
            ).push(self.properties@[k as int]@));
            k = k + 1;
        }
        assert(self.properties@.take(k as int) =~= self.properties@);
        let mut children: Vec<Node> = Vec::new();
        let mut j: usize = 0;
        while j < self.children.len()
            invariant
                j <= self.children.len(),
                children@.len() == j,
                forall|i: int| 0 <= i < j ==> (#[trigger] children@[i])@ == self.children@[i]@,
            decreases self.children.len() - j,
        {
            assert(decreases_to!(*self => self.children@[j as int]));
            let c = self.children[j].copy();
            children.push(c);
            j = j + 1;
        }
        let r = Node {
            name: string_of(self.name.as_str()),
            unit_address: match &self.unit_address {
                Some(a) => Some(string_of(a.as_str())),
                None => None,
            },
            labels: copy_strings(&self.labels),
            properties: props,
            children: children,
            deleted_properties: copy_strings(&self.deleted_properties),
            deleted_nodes: copy_strings(&self.deleted_nodes),
        };
        assert(r@.children =~= self@.children);
        r
    }
}

impl Clone for Node {
    fn clone(&self) -> (r: Node)
        ensures
            r@ == self@,
    {
        self.copy()
    }
}

impl ReferenceNode {
    /// A copy of the reference node.
    pub fn copy(&self) -> (r: ReferenceNode)
        ensures
            r@ == self@,
    {
        ReferenceNode { reference: self.reference.copy(), node: self.node.copy() }
    }
}

impl Clone for ReferenceNode {
    fn clone(&self) -> (r: ReferenceNode)
        ensures
            r@ == self@,
    {
        self.copy()
    }
}

impl DeviceTree {
    /// A copy of the tree and all that it holds.
    pub fn copy(&self) -> (r: DeviceTree)
        ensures
            r@ == self@,
    {
        let mut mem: Vec<MemoryReservation> = Vec::new();
        let mut k: usize = 0;
        while k < self.memory_reservations.len()
            invariant
                k <= self.memory_reservations.len(),
                mem@ =~= self.memory_reservations@.take(k as int),
            decreases self.memory_reservations.len() - k,
        {
            mem.push(self.memory_reservations[k]);
            k = k + 1;
        }
        assert(self.memory_reservations@.take(k as int) =~= self.memory_reservations@);
        let mut incs: Vec<Include> = Vec::new();
        let mut i: usize = 0;
        while i < self.includes.len()
            invariant
                i <= self.includes.len(),
                incs@.map_values(|x: Include| x@) =~= self.includes@.take(i as int).map_values(
                    |x: Include| x@,
                ),
            decreases self.includes.len() - i,
        {
            let inc = Include { path: string_of(self.includes[i].path.as_str()), kind: self.includes[i].kind };
            incs.push(inc);
            assert(self.includes@.take(i + 1).map_values(|x: Include| x@) =~= self.includes@.take(
                i as int,
            ).map_values(|x: Include| x@).push(self.includes@[i as int]@));
            i = i + 1;
        }
        assert(self.includes@.take(i as int) =~= self.includes@);
        let mut rns: Vec<ReferenceNode> = Vec::new();
        let mut j: usize = 0;
        while j < self.reference_nodes.len()
            invariant
                j <= self.reference_nodes.len(),
                rns@.map_values(|x: ReferenceNode| x@) =~= self.reference_nodes@.take(
                    j as int,
                ).map_values(|x: ReferenceNode| x@),
            decreases self.reference_nodes.len() - j,
        {
            rns.push(self.reference_nodes[j].copy());
            assert(self.reference_nodes@.take(j + 1).map_values(|x: ReferenceNode| x@)
                =~= self.reference_nodes@.take(j as int).map_values(|x: ReferenceNode| x@).push(
                self.reference_nodes@[j as int]@,
            ));
            j = j + 1;
        }
        assert(self.reference_nodes@.take(j as int) =~= self.reference_nodes@);
        DeviceTree {
            version: self.version,
            is_plugin: self.is_plugin,
            memory_reservations: mem,
            includes: incs,
            root: match &self.root {
                Some(n) => Some(n.copy()),
                None => None,
            },
            reference_nodes: rns,
        }
    }
}

/// Whether `n` has fewer than `limit` levels below it.
pub fn height_below(n: &Node, limit: usize) -> (r: bool)
    ensures
        r == (node_height(*n) < limit),
    decreases *n,
{
    if n.children.len() == 0 {
        return 0 < limit;
    }
    if limit == 0 {
        return false;
    }
    let mut k: usize = 0;
    while k < n.children.len()
        invariant
            k <= n.children.len(),
            limit > 0,
            n.children@.len() > 0,
            forall|i: int| 0 <= i < k ==> node_height(#[trigger] n.children@[i]) < limit - 1,
        decreases n.children.len() - k,
    {
        assert(decreases_to!(*n => n.children@[k as int]));
        if !height_below(&n.children[k], limit - 1) {
            proof {
                lemma_child_height(*n, k as int);
            }
            return false;
        }
        k = k + 1;
    }
    proof {
        lemma_max_height_bound(*n, n.children@.len() as int, (limit - 1) as nat);
    }
    true
}

/// The greatest height among the first `j` children is below `b` when each
/// of theirs is.
pub proof fn lemma_max_height_bound(n: Node, j: int, b: nat)
    requires
        0 <= j <= n.children@.len(),
        forall|i: int| 0 <= i < j ==> node_height(#[trigger] n.children@[i]) < b,
    ensures
        j > 0 ==> max_height(n, j) < b,
    decreases j,
{
    if j > 1 {
        lemma_max_height_bound(n, j - 1, b);
    }
    if j > 0 {
        assert(max_height(n, 0) == 0);
        assert(node_height(n.children@[j - 1]) < b);
        assert(max_height(n, j) == (if max_height(n, j - 1) >= node_height(n.children@[j - 1]) {
            max_height(n, j - 1)
        } else {
            node_height(n.children@[j - 1])
        }));
    }
}

impl Clone for DeviceTree {
    fn clone(&self) -> (r: DeviceTree)
        ensures
            r@ == self@,
    {
        self.copy()
    }
}

} // verus!
