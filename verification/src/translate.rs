//! Identifiers, connections, and the translator that turns the parser's
//! connection list into the final indexed module graph.

use vstd::prelude::*;

verus! {

/// The resolved kind of an identifier: a plain node, or a port-marked
/// boundary identifier used as a relation source (`InPort`) or target
/// (`OutPort`).
#[derive(Clone, Copy, PartialEq, Eq, Structural, Debug)]
pub enum IdentKind {
    Node,
    InPort,
    OutPort,
}

/// The mathematical value of an identifier.
pub struct IdentifierV {
    pub name: Seq<char>,
    pub kind: IdentKind,
}

/// A named identifier with its derived kind.
#[derive(Debug, PartialEq, Eq)]
pub struct Identifier {
    pub name: String,
    pub kind: IdentKind,
}

impl View for Identifier {
    type V = IdentifierV;

    open spec fn view(&self) -> IdentifierV {
        IdentifierV { name: self.name@, kind: self.kind }
    }
}

impl DeepView for Identifier {
    type V = IdentifierV;

    open spec fn deep_view(&self) -> IdentifierV {
        self@
    }
}

impl Clone for Identifier {
    fn clone(&self) -> (r: Identifier)
        ensures
            r@ == self@,
    {
        Identifier { name: self.name.clone(), kind: self.kind }
    }
}

impl Identifier {
    pub fn new(name: String, kind: IdentKind) -> (r: Identifier)
        ensures
            r@ == (IdentifierV { name: name@, kind }),
    {
        Identifier { name, kind }
    }
}

/// The mathematical value of a connection.
pub struct ConnectionV {
    pub from: IdentifierV,
    pub to: IdentifierV,
    pub is_charge: bool,
}

/// One directed edge candidate between two identifiers, produced per pair in
/// a batch expansion.
#[derive(Debug, PartialEq, Eq)]
pub struct Connection {
    pub from: Identifier,
    pub to: Identifier,
    pub is_charge: bool,
}

impl View for Connection {
    type V = ConnectionV;

    open spec fn view(&self) -> ConnectionV {
        ConnectionV { from: self.from@, to: self.to@, is_charge: self.is_charge }
    }
}

impl DeepView for Connection {
    type V = ConnectionV;

    open spec fn deep_view(&self) -> ConnectionV {
        self@
    }
}

impl Clone for Connection {
    fn clone(&self) -> (r: Connection)
        ensures
            r@ == self@,
    {
        Connection { from: self.from.clone(), to: self.to.clone(), is_charge: self.is_charge }
    }
}

impl Connection {
    pub fn new(from: Identifier, to: Identifier, is_charge: bool) -> (r: Connection)
        ensures
            r@ == (ConnectionV { from: from@, to: to@, is_charge }),
    {
        Connection { from, to, is_charge }
    }
}

/// A translation-time diagnostic: a name was used with a kind other than
/// its first-recorded kind (name, the kind observed here, the kind recorded
/// first).
#[derive(Debug, PartialEq, Eq)]
pub enum TranslatorError {
    InconstIdent(String, IdentKind, IdentKind),
}

/// The mathematical value of a translation-time diagnostic.
pub enum TranslatorErrorV {
    InconstIdent(Seq<char>, IdentKind, IdentKind),
}

impl View for TranslatorError {
    type V = TranslatorErrorV;

    open spec fn view(&self) -> TranslatorErrorV {
        match self {
            TranslatorError::InconstIdent(n, k, a) => TranslatorErrorV::InconstIdent(n@, *k, *a),
        }
    }
}

impl DeepView for TranslatorError {
    type V = TranslatorErrorV;

    open spec fn deep_view(&self) -> TranslatorErrorV {
        self@
    }
}

/// The mathematical value of a module: node count, edge list, input set and
/// output set, all over integer node handles.
pub struct ModuleV {
    pub nodes: int,
    pub edges: Seq<(int, int, bool)>,
    pub inputs: Seq<int>,
    pub outputs: Seq<int>,
}

pub open spec fn mv_empty() -> ModuleV {
    ModuleV { nodes: 0, edges: Seq::empty(), inputs: Seq::empty(), outputs: Seq::empty() }
}

/// Append one edge and widen the node count to cover both endpoints.
pub open spec fn mv_connect(m: ModuleV, from: int, to: int, is_charge: bool) -> ModuleV {
    let n1 = if from + 1 > m.nodes {
        from + 1
    } else {
        m.nodes
    };
    let n2 = if to + 1 > n1 {
        to + 1
    } else {
        n1
    };
    ModuleV { nodes: n2, edges: m.edges.push((from, to, is_charge)), ..m }
}

pub open spec fn mv_input(m: ModuleV, i: int) -> ModuleV {
    ModuleV { inputs: m.inputs.push(i), ..m }
}

pub open spec fn mv_output(m: ModuleV, i: int) -> ModuleV {
    ModuleV { outputs: m.outputs.push(i), ..m }
}

/// The final indexed graph artifact: node count, edge list, input set,
/// output set. Built once by the translator, immutable thereafter.
#[derive(Debug, PartialEq, Eq)]
pub struct Module {
    pub nodes: usize,
    pub edges: Vec<(usize, usize, bool)>,
    pub inputs: Vec<usize>,
    pub outputs: Vec<usize>,
}

impl View for Module {
    type V = ModuleV;

    open spec fn view(&self) -> ModuleV {
        ModuleV {
            nodes: self.nodes as int,
            edges: Seq::new(
                self.edges@.len(),
                |i: int| (self.edges@[i].0 as int, self.edges@[i].1 as int, self.edges@[i].2),
            ),
            inputs: Seq::new(self.inputs@.len(), |i: int| self.inputs@[i] as int),
            outputs: Seq::new(self.outputs@.len(), |i: int| self.outputs@[i] as int),
        }
    }
}

impl Default for Module {
    /// The empty module: zero nodes and no edges.
    fn default() -> (r: Module)
        ensures
            r@ == mv_empty(),
    {
        let r = Module { nodes: 0, edges: Vec::new(), inputs: Vec::new(), outputs: Vec::new() };
        proof {
            assert(r@.edges =~= mv_empty().edges);
            assert(r@.inputs =~= mv_empty().inputs);
            assert(r@.outputs =~= mv_empty().outputs);
        }
        r
    }
}

/// Builds a module by accumulating edge and boundary-marking operations.
pub struct ModuleBuilder {
    module: Module,
}

impl View for ModuleBuilder {
    type V = ModuleV;

    closed spec fn view(&self) -> ModuleV {
        self.module@
    }
}

impl Default for ModuleBuilder {
    /// A builder for the empty module.
    fn default() -> (r: ModuleBuilder)
        ensures
            r@ == mv_empty(),
    {
        let r = ModuleBuilder { module: Module::default() };
        r
    }
}

impl ModuleBuilder {
    /// Append one edge and cover both endpoints in the node count.
    pub fn connect(&mut self, from: usize, to: usize, is_charge: bool)
        requires
            from < usize::MAX,
            to < usize::MAX,
        ensures
            final(self)@ == mv_connect(old(self)@, from as int, to as int, is_charge),
    {
        self.module.edges.push((from, to, is_charge));
        if from >= self.module.nodes {
            self.module.nodes = from + 1;
        }
        if to >= self.module.nodes {
            self.module.nodes = to + 1;
        }
        proof {
            assert(self@.edges =~= old(self)@.edges.push((from as int, to as int, is_charge)));
            assert(self@.inputs =~= old(self)@.inputs);
            assert(self@.outputs =~= old(self)@.outputs);
        }
    }

    /// Append one charge edge.
    pub fn charge(&mut self, from: usize, to: usize)
        requires
            from < usize::MAX,
            to < usize::MAX,
        ensures
            final(self)@ == mv_connect(old(self)@, from as int, to as int, true),
    {
        self.connect(from, to, true);
    }

    /// Append one block edge.
    pub fn block(&mut self, from: usize, to: usize)
        requires
            from < usize::MAX,
            to < usize::MAX,
        ensures
            final(self)@ == mv_connect(old(self)@, from as int, to as int, false),
    {
        self.connect(from, to, false);
    }

    /// Mark a node index as an input boundary.
    pub fn input(&mut self, i: usize)
        ensures
            final(self)@ == mv_input(old(self)@, i as int),
    {
        self.module.inputs.push(i);
        proof {
            assert(self@.inputs =~= old(self)@.inputs.push(i as int));
            assert(self@.edges =~= old(self)@.edges);
            assert(self@.outputs =~= old(self)@.outputs);
        }
    }

    /// Mark a node index as an output boundary.
    pub fn output(&mut self, i: usize)
        ensures
            final(self)@ == mv_output(old(self)@, i as int),
    {
        self.module.outputs.push(i);
        proof {
            assert(self@.outputs =~= old(self)@.outputs.push(i as int));
            assert(self@.edges =~= old(self)@.edges);
            assert(self@.inputs =~= old(self)@.inputs);
        }
    }

    /// Hand the finished module out.
    pub fn build(self) -> (r: Module)
        ensures
            r@ == self@,
    {
        self.module
    }
}

/// The registry a translation builds: each distinct name in first-seen
/// order, with its first-recorded kind; a name's index is its position.
pub open spec fn reg_find(reg: Seq<(Seq<char>, IdentKind)>, name: Seq<char>) -> Option<int>
    decreases reg.len(),
{
    if reg.len() == 0 {
        None
    } else if reg[0].0 == name {
        Some(0)
    } else {
        match reg_find(reg.drop_first(), name) {
            None => None,
            Some(i) => Some(i + 1),
        }
    }
}

/// `reg_find` returns the position of the first entry with the name, and
/// `None` exactly when no entry has it.
pub proof fn lemma_reg_find(reg: Seq<(Seq<char>, IdentKind)>, name: Seq<char>)
    ensures
        match reg_find(reg, name) {
            Some(i) => 0 <= i < reg.len() && reg[i].0 == name && (forall|j: int|
                0 <= j < i ==> reg[j].0 != name),
            None => forall|j: int| 0 <= j < reg.len() ==> reg[j].0 != name,
        },
    decreases reg.len(),
{
    if reg.len() == 0 {
    } else if reg[0].0 == name {
    } else {
        lemma_reg_find(reg.drop_first(), name);
        assert(forall|j: int| 1 <= j < reg.len() ==> reg[j] == reg.drop_first()[j - 1]);
    }
}

/// What one registry lookup-or-insert yields: the new registry, the name's
/// index, the recorded kind where it conflicts with the observed one, and
/// whether the name is fresh.
pub struct IndexedV {
    pub reg: Seq<(Seq<char>, IdentKind)>,
    pub idx: int,
    pub conflict: Option<IdentKind>,
    pub fresh: bool,
}

pub open spec fn index_spec(
    reg: Seq<(Seq<char>, IdentKind)>,
    name: Seq<char>,
    kind: IdentKind,
) -> IndexedV {
    match reg_find(reg, name) {
        Some(i) => IndexedV {
            reg,
            idx: i,
            conflict: if reg[i].1 == kind {
                None
            } else {
                Some(reg[i].1)
            },
            fresh: false,
        },
        None => IndexedV {
            reg: reg.push((name, kind)),
            idx: reg.len() as int,
            conflict: None,
            fresh: true,
        },
    }
}

/// The whole state of a translation: the registry, the module under
/// construction, and the diagnostics so far.
pub struct TransSt {
    pub reg: Seq<(Seq<char>, IdentKind)>,
    pub module: ModuleV,
    pub errors: Seq<TranslatorErrorV>,
}

pub open spec fn trans_init() -> TransSt {
    TransSt { reg: Seq::empty(), module: mv_empty(), errors: Seq::empty() }
}

/// Translate one connection: index both endpoints (first use of a name
/// fixes its kind and index); on a kind conflict record a diagnostic and
/// exclude the edge; otherwise append the edge, and mark a fresh port-marked
/// source as an input and a fresh port-marked target as an output.
pub open spec fn trans_conn(st: TransSt, conn: ConnectionV) -> TransSt {
    let f = index_spec(st.reg, conn.from.name, conn.from.kind);
    let t = index_spec(f.reg, conn.to.name, conn.to.kind);
    let errs1 = match f.conflict {
        Some(recorded) => st.errors.push(
            TranslatorErrorV::InconstIdent(conn.from.name, conn.from.kind, recorded),
        ),
        None => st.errors,
    };
    let errs2 = match t.conflict {
        Some(recorded) => errs1.push(
            TranslatorErrorV::InconstIdent(conn.to.name, conn.to.kind, recorded),
        ),
        None => errs1,
    };
    if f.conflict is None && t.conflict is None {
        let m1 = mv_connect(st.module, f.idx, t.idx, conn.is_charge);
        let m2 = if f.fresh && conn.from.kind == IdentKind::InPort {
            mv_input(m1, f.idx)
        } else {
            m1
        };
        let m3 = if t.fresh && conn.to.kind == IdentKind::OutPort {
            mv_output(m2, t.idx)
        } else {
            m2
        };
        TransSt { reg: t.reg, module: m3, errors: errs2 }
    } else {
        TransSt { reg: t.reg, module: st.module, errors: errs2 }
    }
}

/// Translate a connection list in order.
pub open spec fn trans_fold(st: TransSt, conns: Seq<ConnectionV>) -> TransSt
    decreases conns.len(),
{
    if conns.len() == 0 {
        st
    } else {
        trans_fold(trans_conn(st, conns[0]), conns.drop_first())
    }
}

pub open spec fn translate_spec(conns: Seq<ConnectionV>) -> TransSt {
    trans_fold(trans_init(), conns)
}

/// The names whose role resolved to `InPort`, in first-seen order.
pub open spec fn in_names(reg: Seq<(Seq<char>, IdentKind)>) -> Seq<Seq<char>>
    decreases reg.len(),
{
    if reg.len() == 0 {
        Seq::empty()
    } else {
        let rest = in_names(reg.drop_first());
        if reg[0].1 == IdentKind::InPort {
            seq![reg[0].0] + rest
        } else {
            rest
        }
    }
}

/// The names whose role resolved to `OutPort`, in first-seen order.
pub open spec fn out_names(reg: Seq<(Seq<char>, IdentKind)>) -> Seq<Seq<char>>
    decreases reg.len(),
{
    if reg.len() == 0 {
        Seq::empty()
    } else {
        let rest = out_names(reg.drop_first());
        if reg[0].1 == IdentKind::OutPort {
            seq![reg[0].0] + rest
        } else {
            rest
        }
    }
}

/// The executable registry: names in first-seen order; a name's index is
/// its position.
struct Indexer {
    map: Vec<(String, IdentKind)>,
}

impl Indexer {
    spec fn reg(&self) -> Seq<(Seq<char>, IdentKind)> {
        self.map.deep_view()
    }

    fn index(&mut self, ident: String, kind: IdentKind) -> (r: (usize, Option<IdentKind>, bool))
        ensures
            final(self).reg() == index_spec(old(self).reg(), ident@, kind).reg,
            r.0 as int == index_spec(old(self).reg(), ident@, kind).idx,
            r.1 == index_spec(old(self).reg(), ident@, kind).conflict,
            r.2 == index_spec(old(self).reg(), ident@, kind).fresh,
            r.0 < final(self).map.len(),
            final(self).map.len() >= old(self).map.len(),
    {
        let ghost reg = self.reg();
        proof {
            lemma_reg_find(reg, ident@);
        }
        let mut i: usize = 0;
        while i < self.map.len()
            invariant
                i <= self.map.len(),
                reg == self.map.deep_view(),
                forall|j: int| 0 <= j < i ==> reg[j].0 != ident@,
            decreases self.map.len() - i,
        {
            let e = &self.map[i];
            if e.0 == ident {
                proof {
                    lemma_reg_find(reg, ident@);
                    assert(reg[i as int].0 == ident@);
                    assert(reg_find(reg, ident@) == Some(i as int));
                }
                let recorded = e.1;
                let conflict = if recorded == kind {
                    None
                } else {
                    Some(recorded)
                };
                return (i, conflict, false);
            }
            proof {
                assert(reg[i as int].0 != ident@);
            }
            i = i + 1;
        }
        proof {
            assert(reg_find(reg, ident@) is None);
        }
        let idx = self.map.len();
        let ghost iv = ident@;
        self.map.push((ident, kind));
        proof {
            assert(self.map.deep_view() =~= reg.push((iv, kind)));
        }
        (idx, None, true)
    }

    /// The input boundary names, in first-seen order.
    fn input_names(&self) -> (r: Vec<String>)
        ensures
            r.deep_view() == in_names(self.reg()),
    {
        let ghost reg = self.reg();
        let mut r: Vec<String> = Vec::new();
        proof {
            assert(r.deep_view() =~= Seq::<Seq<char>>::empty());
            assert(reg.skip(0) =~= reg);
        }
        let mut i: usize = 0;
        while i < self.map.len()
            invariant
                i <= self.map.len(),
                reg == self.map.deep_view(),
                in_names(reg) == r.deep_view() + in_names(reg.skip(i as int)),
            decreases self.map.len() - i,
        {
            let ghost pre = r.deep_view();
            let e = &self.map[i];
            proof {
                assert(reg.skip(i as int)[0] == reg[i as int]);
                assert(reg.skip(i as int).drop_first() =~= reg.skip(i as int + 1));
            }
            if e.1 == IdentKind::InPort {
                r.push(e.0.clone());
                proof {
                    assert(r.deep_view() =~= pre.push(reg[i as int].0));
                    assert(pre + (seq![reg[i as int].0] + in_names(reg.skip(i as int + 1)))
                        =~= r.deep_view() + in_names(reg.skip(i as int + 1)));
                }
            }
            i = i + 1;
        }
        proof {
            assert(reg.skip(self.map.len() as int) =~= Seq::<(Seq<char>, IdentKind)>::empty());
            assert(in_names(reg) =~= r.deep_view());
        }
        r
    }

    /// The output boundary names, in first-seen order.
    fn output_names(&self) -> (r: Vec<String>)
        ensures
            r.deep_view() == out_names(self.reg()),
    {
        let ghost reg = self.reg();
        let mut r: Vec<String> = Vec::new();
        proof {
            assert(r.deep_view() =~= Seq::<Seq<char>>::empty());
            assert(reg.skip(0) =~= reg);
        }
        let mut i: usize = 0;
        while i < self.map.len()
            invariant
                i <= self.map.len(),
                reg == self.map.deep_view(),
                out_names(reg) == r.deep_view() + out_names(reg.skip(i as int)),
            decreases self.map.len() - i,
        {
            let ghost pre = r.deep_view();
            let e = &self.map[i];
            proof {
                assert(reg.skip(i as int)[0] == reg[i as int]);
                assert(reg.skip(i as int).drop_first() =~= reg.skip(i as int + 1));
            }
            if e.1 == IdentKind::OutPort {
                r.push(e.0.clone());
                proof {
                    assert(r.deep_view() =~= pre.push(reg[i as int].0));
                    assert(pre + (seq![reg[i as int].0] + out_names(reg.skip(i as int + 1)))
                        =~= r.deep_view() + out_names(reg.skip(i as int + 1)));
                }
            }
            i = i + 1;
        }
        proof {
            assert(reg.skip(self.map.len() as int) =~= Seq::<(Seq<char>, IdentKind)>::empty());
            assert(out_names(reg) =~= r.deep_view());
        }
        r
    }
}

/// What a translation hands back: the module, the second-chance consistency
/// diagnostics, and, when requested, the input and output boundary names.
pub struct Translation {
    pub module: Module,
    pub errors: Vec<TranslatorError>,
    pub identifiers: Option<(Vec<String>, Vec<String>)>,
}

/// Turn the ordered connection list into the final indexed module, assigning
/// each distinct name a stable index in first-seen order and re-checking
/// kind consistency at the whole-program level. An edge with an inconsistent
/// endpoint is excluded from the module, never coerced.
#[verifier::loop_isolation(false)]
pub fn translate(connections: Vec<Connection>, gen_ids: bool) -> (r: Translation)
    ensures
        r.module@ == translate_spec(connections.deep_view()).module,
        r.errors.deep_view() == translate_spec(connections.deep_view()).errors,
        r.identifiers is Some <==> gen_ids,
        r.identifiers matches Some(ids) ==> ids.0.deep_view() == in_names(
            translate_spec(connections.deep_view()).reg,
        ) && ids.1.deep_view() == out_names(translate_spec(connections.deep_view()).reg),
{
    let ghost conns = connections.deep_view();
    let mut indexer = Indexer { map: Vec::new() };
    let mut builder = ModuleBuilder::default();
    let mut errors: Vec<TranslatorError> = Vec::new();
    proof {
        assert(indexer.reg() =~= Seq::<(Seq<char>, IdentKind)>::empty());
        assert(errors.deep_view() =~= Seq::<TranslatorErrorV>::empty());
        assert(conns.skip(0) =~= conns);
    }
    let mut i: usize = 0;
    while i < connections.len()
        invariant
            i <= connections.len(),
            conns == connections.deep_view(),
            trans_fold(
                TransSt { reg: indexer.reg(), module: builder@, errors: errors.deep_view() },
                conns.skip(i as int),
            ) == translate_spec(conns),
        decreases connections.len() - i,
    {
        let ghost st = TransSt {
            reg: indexer.reg(),
            module: builder@,
            errors: errors.deep_view(),
        };
        let con = &connections[i];
        proof {
            assert(conns.skip(i as int)[0] == conns[i as int]);
            assert(conns.skip(i as int).drop_first() =~= conns.skip(i as int + 1));
            assert(con.deep_view() == conns[i as int]);
        }
        let (fi, fconf, ffresh) = indexer.index(con.from.name.clone(), con.from.kind);
        let (ti, tconf, tfresh) = indexer.index(con.to.name.clone(), con.to.kind);
        let mut flag = false;
        match fconf {
            Some(recorded) => {
                flag = true;
                errors.push(
                    TranslatorError::InconstIdent(con.from.name.clone(), con.from.kind, recorded),
                );
                proof {
                    assert(errors.deep_view() =~= st.errors.push(
                        TranslatorErrorV::InconstIdent(
                            conns[i as int].from.name,
                            conns[i as int].from.kind,
                            recorded,
                        ),
                    ));
                }
            },
            None => {},
        }
        match tconf {
            Some(recorded) => {
                flag = true;
                let ghost errs1 = errors.deep_view();
                errors.push(
                    TranslatorError::InconstIdent(con.to.name.clone(), con.to.kind, recorded),
                );
                proof {
                    assert(errors.deep_view() =~= errs1.push(
                        TranslatorErrorV::InconstIdent(
                            conns[i as int].to.name,
                            conns[i as int].to.kind,
                            recorded,
                        ),
                    ));
                }
            },
            None => {},
        }
        if !flag {
            builder.connect(fi, ti, con.is_charge);
            if ffresh && con.from.kind == IdentKind::InPort {
                builder.input(fi);
            }
            if tfresh && con.to.kind == IdentKind::OutPort {
                builder.output(ti);
            }
        }
        proof {
            assert(TransSt {
                reg: indexer.reg(),
                module: builder@,
                errors: errors.deep_view(),
            } == trans_conn(st, conns[i as int]));
        }
        i = i + 1;
    }
    proof {
        assert(conns.skip(connections.len() as int) =~= Seq::<ConnectionV>::empty());
    }
    let identifiers = if gen_ids {
        Some((indexer.input_names(), indexer.output_names()))
    } else {
        None
    };
    Translation { module: builder.build(), errors, identifiers }
}

} // verus!
