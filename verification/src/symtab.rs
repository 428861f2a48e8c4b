//! The block-structured symbol table of the semantic analysis, and the
//! information it collects about every definition.
use vstd::prelude::*;
use crate::ast::{DataType, DefId, FuncItemId, FuncParam, GlobalVarItemId, params_view};

verus! {

/// The id of a definition that is a local variable (or parameter).
#[derive(Debug, Clone, Copy, PartialEq, Eq, Structural)]
pub struct LocalVarDefId(pub DefId);

/// The id of a definition that is a function.
#[derive(Debug, Clone, Copy, PartialEq, Eq, Structural)]
pub struct FuncDefId(pub DefId);

/// Information about a variable definition.
#[derive(Debug, Clone, Copy, PartialEq, Eq, Structural)]
pub struct VarInfo {
    pub data_type: DataType,
    /// The slot of the variable: its index among the global variables, or
    /// among the local variables of its function.
    pub offset: usize,
}

/// Information about a function definition.
#[derive(Debug)]
pub struct FuncInfo {
    pub return_type: DataType,
    pub param_types: Vec<DataType>,
    pub item_id: FuncItemId,
    /// All local variables of the function, the parameters first, in
    /// definition order; a local variable's offset is its index here.
    pub local_vars: Vec<LocalVarDefId>,
}

impl FuncInfo {
    /// The number of parameters.
    pub fn param_count(&self) -> (res: usize)
        ensures
            res == self.param_types@.len(),
    {
        self.param_types.len()
    }
}

/// Information about a definition.
#[derive(Debug)]
pub enum DefInfo {
    Func(FuncInfo),
    GlobalVar(VarInfo),
    LocalVar(VarInfo),
}

/// The view of a definition.
pub enum SpecDef {
    Func { return_type: DataType, params: Seq<DataType>, item: usize, locals: Seq<usize> },
    GlobalVar { data_type: DataType, offset: usize },
    LocalVar { data_type: DataType, offset: usize },
}

impl View for FuncInfo {
    type V = SpecDef;

    open spec fn view(&self) -> SpecDef {
        SpecDef::Func {
            return_type: self.return_type,
            params: self.param_types@,
            item: self.item_id.0.0,
            locals: Seq::new(self.local_vars@.len(), |i: int| self.local_vars@[i].0.0),
        }
    }
}

impl View for DefInfo {
    type V = SpecDef;

    open spec fn view(&self) -> SpecDef {
        match self {
            DefInfo::Func(f) => f@,
            DefInfo::GlobalVar(v) => SpecDef::GlobalVar { data_type: v.data_type, offset: v.offset },
            DefInfo::LocalVar(v) => SpecDef::LocalVar { data_type: v.data_type, offset: v.offset },
        }
    }
}

/// The views of a sequence of definitions.
pub open spec fn defs_view(s: Seq<DefInfo>) -> Seq<SpecDef> {
    Seq::new(s.len(), |i: int| s[i]@)
}

/// The views of a sequence of global variable item ids.
pub open spec fn globals_view(s: Seq<GlobalVarItemId>) -> Seq<usize> {
    Seq::new(s.len(), |i: int| s[i].0.0)
}

/// All definitions of a program, indexed by [`DefId`].
#[derive(Debug)]
pub struct Definitions {
    defs: Vec<DefInfo>,
}

impl View for Definitions {
    type V = Seq<SpecDef>;

    closed spec fn view(&self) -> Seq<SpecDef> {
        defs_view(self.defs@)
    }
}

impl Definitions {
    /// The number of definitions.
    pub fn len(&self) -> (res: usize)
        ensures
            res == self@.len(),
    {
        self.defs.len()
    }

    /// The definition with id `id`.
    pub fn get(&self, id: DefId) -> (res: &DefInfo)
        requires
            id.0 < self@.len(),
        ensures
            res@ == self@[id.0 as int],
    {
        &self.defs[id.0]
    }
}

// ---------------------------------------------------------------------------
// The abstract symbol table.

/// A scope: its names and the definitions they denote, in definition order.
pub type SpecScope = Seq<(Seq<char>, usize)>;

/// The definition that `name` denotes in `scope`, if any.
pub open spec fn lookup(scope: SpecScope, name: Seq<char>) -> Option<usize>
    decreases scope.len(),
{
    if scope.len() == 0 {
        None
    } else if scope.last().0 == name {
        Some(scope.last().1)
    } else {
        lookup(scope.drop_last(), name)
    }
}

/// The definition that `name` denotes in the innermost scope that defines it.
pub open spec fn resolve_in(scopes: Seq<SpecScope>, name: Seq<char>) -> Option<usize>
    decreases scopes.len(),
{
    if scopes.len() == 0 {
        None
    } else {
        match lookup(scopes.last(), name) {
            Some(id) => Some(id),
            None => resolve_in(scopes.drop_last(), name),
        }
    }
}

/// The view of a symbol table.
pub struct SymtabView {
    /// All definitions made so far; a [`DefId`] indexes this sequence.
    pub defs: Seq<SpecDef>,
    /// The scopes, outermost (global) first.
    pub scopes: Seq<SpecScope>,
    /// The function whose body is analyzed.
    pub current: Option<usize>,
    /// The global variable items, in definition order.
    pub globals: Seq<usize>,
}

impl SymtabView {
    /// The symbol table at the start of the analysis: one empty global scope.
    pub open spec fn initial() -> SymtabView {
        SymtabView { defs: Seq::empty(), scopes: seq![Seq::empty()], current: None, globals: Seq::empty() }
    }

    /// The well-formedness of a symbol table.
    pub open spec fn wf(self) -> bool {
        &&& self.scopes.len() >= 1
        &&& forall|i: int, j: int|
            0 <= i < self.scopes.len() && 0 <= j < self.scopes[i].len() ==> #[trigger] self.scopes[i][j].1
                < self.defs.len()
        &&& self.current matches Some(c) ==> c < self.defs.len() && self.defs[c as int] is Func
    }

    /// The definition that `name` denotes here.
    pub open spec fn resolve(self, name: Seq<char>) -> Option<usize> {
        resolve_in(self.scopes, name)
    }

    /// Whether the innermost scope defines `name`.
    pub open spec fn defined_in_scope(self, name: Seq<char>) -> bool {
        lookup(self.scopes.last(), name) is Some
    }

    /// The table after adding `def` under `name` to the innermost scope.
    pub open spec fn with_def(self, name: Seq<char>, def: SpecDef) -> SymtabView {
        SymtabView {
            defs: self.defs.push(def),
            scopes: self.scopes.update(
                self.scopes.len() - 1,
                self.scopes.last().push((name, self.defs.len() as usize)),
            ),
            ..self
        }
    }

    /// Defines a function in the innermost scope; `None` if the name is taken there.
    pub open spec fn define_func(
        self,
        name: Seq<char>,
        return_type: DataType,
        params: Seq<DataType>,
        item: usize,
    ) -> Option<SymtabView> {
        if self.defined_in_scope(name) {
            None
        } else {
            Some(
                self.with_def(
                    name,
                    SpecDef::Func { return_type, params, item, locals: Seq::empty() },
                ),
            )
        }
    }

    /// Defines a global variable in the innermost scope; `None` if the name is taken there.
    pub open spec fn define_global(self, name: Seq<char>, data_type: DataType, item: usize) -> Option<
        SymtabView,
    > {
        if self.defined_in_scope(name) {
            None
        } else {
            let t = self.with_def(
                name,
                SpecDef::GlobalVar { data_type, offset: self.globals.len() as usize },
            );
            Some(SymtabView { globals: self.globals.push(item), ..t })
        }
    }

    /// The local variables of the current function.
    pub open spec fn current_locals(self) -> Seq<usize> {
        match self.current {
            Some(c) => match self.defs[c as int] {
                SpecDef::Func { locals, .. } => locals,
                _ => Seq::empty(),
            },
            None => Seq::empty(),
        }
    }

    /// Defines a local variable of the current function in the innermost
    /// scope; `None` if the name is taken there.
    pub open spec fn define_local(self, name: Seq<char>, data_type: DataType) -> Option<SymtabView> {
        if self.defined_in_scope(name) {
            None
        } else {
            let id = self.defs.len() as usize;
            let locals = self.current_locals();
            let t = self.with_def(name, SpecDef::LocalVar { data_type, offset: locals.len() as usize });
            match self.current {
                Some(c) => match self.defs[c as int] {
                    SpecDef::Func { return_type, params, item, .. } => Some(
                        SymtabView {
                            defs: t.defs.update(
                                c as int,
                                SpecDef::Func { return_type, params, item, locals: locals.push(id) },
                            ),
                            ..t
                        },
                    ),
                    _ => Some(t),
                },
                None => Some(t),
            }
        }
    }

    /// The table with a new innermost scope.
    pub open spec fn enter(self) -> SymtabView {
        SymtabView { scopes: self.scopes.push(Seq::empty()), ..self }
    }

    /// The table without its innermost scope.
    pub open spec fn leave(self) -> SymtabView {
        SymtabView { scopes: self.scopes.drop_last(), ..self }
    }

    /// The table whose current function is `f`.
    pub open spec fn with_current(self, f: usize) -> SymtabView {
        SymtabView { current: Some(f), ..self }
    }

    /// `next` is well-formed and arises from `self` by definitions in the
    /// innermost scope: the outer scopes and the current function are
    /// unchanged, and existing functions stay functions.
    pub open spec fn steps_to(self, next: SymtabView) -> bool {
        &&& next.wf()
        &&& next.current == self.current
        &&& next.scopes.len() == self.scopes.len()
        &&& next.scopes.drop_last() == self.scopes.drop_last()
        &&& next.defs.len() >= self.defs.len()
        &&& forall|i: int| 0 <= i < self.defs.len() && self.defs[i] is Func ==> #[trigger] next.defs[i] is Func
    }
}

/// A well-formed table steps to itself.
pub proof fn lemma_steps_refl(st: SymtabView)
    requires
        st.wf(),
    ensures
        st.steps_to(st),
{
}

/// Steps compose.
pub proof fn lemma_steps_trans(a: SymtabView, b: SymtabView, c: SymtabView)
    requires
        a.steps_to(b),
        b.steps_to(c),
    ensures
        a.steps_to(c),
{
}

/// Steps inside a scope of its own leave the outer table as it was, apart
/// from the new definitions.
pub proof fn lemma_steps_enter_leave(a: SymtabView, b: SymtabView)
    requires
        a.wf(),
        a.enter().steps_to(b),
    ensures
        b.scopes.len() > 1,
        b.leave().scopes == a.scopes,
        a.steps_to(b.leave()),
{
    assert(b.leave().scopes =~= a.scopes);
}

/// Opening a scope keeps a table well-formed.
pub proof fn lemma_enter_wf(a: SymtabView)
    requires
        a.wf(),
    ensures
        a.enter().wf(),
        a.enter().scopes.len() == a.scopes.len() + 1,
{
}

/// Adding a definition keeps the outer scopes and makes a step.
proof fn lemma_with_def_step(st: SymtabView, name: Seq<char>, d: SpecDef)
    requires
        st.wf(),
    ensures
        st.steps_to(st.with_def(name, d)),
{
    let t = st.with_def(name, d);
    assert(t.scopes.drop_last() =~= st.scopes.drop_last());
    assert forall|i: int, j: int|
        0 <= i < t.scopes.len() && 0 <= j < t.scopes[i].len() implies #[trigger] t.scopes[i][j].1
        < t.defs.len() by {
        if i < st.scopes.len() - 1 {
            assert(t.scopes[i] == st.scopes[i]);
        } else if j < st.scopes[i].len() {
            assert(t.scopes[i][j] == st.scopes[i][j]);
        }
    }
}

/// Each successful definition is a step.
pub proof fn lemma_define_steps(st: SymtabView, name: Seq<char>, t: DataType, params: Seq<DataType>, item: usize)
    requires
        st.wf(),
    ensures
        st.define_func(name, t, params, item) matches Some(n) ==> st.steps_to(n) && n.defs.len()
            == st.defs.len() + 1,
        st.define_global(name, t, item) matches Some(n) ==> st.steps_to(n) && n.defs.len()
            == st.defs.len() + 1,
        st.current is Some ==> (st.define_local(name, t) matches Some(n) ==> st.steps_to(n)
            && n.defs.len() == st.defs.len() + 1),
{
    lemma_with_def_step(st, name, SpecDef::Func { return_type: t, params, item, locals: Seq::empty() });
    lemma_with_def_step(st, name, SpecDef::GlobalVar { data_type: t, offset: st.globals.len() as usize });
    lemma_with_def_step(
        st,
        name,
        SpecDef::LocalVar { data_type: t, offset: st.current_locals().len() as usize },
    );
    if st.current is Some {
        if let Some(n) = st.define_local(name, t) {
            let w = st.with_def(
                name,
                SpecDef::LocalVar { data_type: t, offset: st.current_locals().len() as usize },
            );
            assert forall|i: int| 0 <= i < st.defs.len() && st.defs[i] is Func implies #[trigger] n.defs[i] is Func by {
                assert(w.defs[i] is Func);
            }
        }
    }
}

/// The types of a parameter list.
pub open spec fn param_types_of(params: Seq<(DataType, Seq<char>)>) -> Seq<DataType> {
    Seq::new(params.len(), |i: int| params[i].0)
}

/// A scope entry: a name and the definition it denotes.
#[derive(Debug)]
struct Entry {
    name: String,
    id: DefId,
}

/// The block-structured symbol table.
#[derive(Debug)]
pub struct Symtab {
    definitions: Vec<DefInfo>,
    scopes: Vec<Vec<Entry>>,
    current_func: Option<FuncDefId>,
    global_vars: Vec<GlobalVarItemId>,
}

/// The view of a scope.
spec fn scope_view(s: Seq<Entry>) -> SpecScope {
    Seq::new(s.len(), |i: int| (s[i].name@, s[i].id.0))
}

impl View for Symtab {
    type V = SymtabView;

    closed spec fn view(&self) -> SymtabView {
        SymtabView {
            defs: defs_view(self.definitions@),
            scopes: Seq::new(self.scopes@.len(), |i: int| scope_view(self.scopes@[i]@)),
            current: match self.current_func {
                Some(f) => Some(f.0.0),
                None => None,
            },
            globals: globals_view(self.global_vars@),
        }
    }
}

/// The information collected about a whole program.
#[derive(Debug)]
pub struct ProgramInfo {
    pub definitions: Definitions,
    pub global_vars: Vec<GlobalVarItemId>,
    pub main_func: Option<FuncDefId>,
}

impl ProgramInfo {
    /// The definition with id `id`.
    pub fn def(&self, id: DefId) -> (res: &DefInfo)
        requires
            id.0 < self.definitions@.len(),
        ensures
            res@ == self.definitions@[id.0 as int],
    {
        self.definitions.get(id)
    }

    /// The function with id `id`.
    pub fn func(&self, id: FuncDefId) -> (res: &FuncInfo)
        requires
            id.0.0 < self.definitions@.len(),
            self.definitions@[id.0.0 as int] is Func,
        ensures
            res@ == self.definitions@[id.0.0 as int],
    {
        match self.definitions.get(id.0) {
            DefInfo::Func(f) => f,
            _ => vstd::pervasive::unreached(),
        }
    }

    /// The local variable (or parameter) with id `id`.
    pub fn local_var(&self, id: LocalVarDefId) -> (res: &VarInfo)
        requires
            id.0.0 < self.definitions@.len(),
            self.definitions@[id.0.0 as int] is LocalVar,
        ensures
            self.definitions@[id.0.0 as int] == (SpecDef::LocalVar { data_type: res.data_type, offset: res.offset }),
    {
        match self.definitions.get(id.0) {
            DefInfo::LocalVar(v) => v,
            _ => vstd::pervasive::unreached(),
        }
    }
}

impl Symtab {
    /// An empty symbol table with one (global) scope.
    pub fn new() -> (res: Symtab)
        ensures
            res@ == SymtabView::initial(),
    {
        let mut scopes = Vec::new();
        scopes.push(Vec::new());
        let res = Symtab { definitions: Vec::new(), scopes, current_func: None, global_vars: Vec::new() };
        proof {
            assert(res@.defs =~= Seq::empty());
            assert(res@.globals =~= Seq::empty());
            assert(res@.scopes[0] =~= Seq::<(Seq<char>, usize)>::empty());
            assert(res@.scopes =~= seq![Seq::<(Seq<char>, usize)>::empty()]);
        }
        res
    }

    /// There are at most `usize::MAX` definitions.
    pub proof fn lemma_defs_bound(&self)
        ensures
            self@.defs.len() <= usize::MAX,
    {
        assert(self.definitions.len() == self.definitions@.len());
    }

    /// The definition with id `id`.
    pub fn get(&self, id: DefId) -> (res: &DefInfo)
        requires
            id.0 < self@.defs.len(),
        ensures
            res@ == self@.defs[id.0 as int],
    {
        &self.definitions[id.0]
    }

    /// Looks `name` up in one scope, from the most recent definition back.
    fn lookup_scope(scope: &Vec<Entry>, name: &String) -> (res: Option<DefId>)
        ensures
            match res {
                Some(id) => lookup(scope_view(scope@), name@) == Some(id.0),
                None => lookup(scope_view(scope@), name@) is None,
            },
    {
        let mut i = scope.len();
        proof {
            assert(scope@.take(i as int) =~= scope@);
        }
        while i > 0
            invariant
                i <= scope@.len(),
                lookup(scope_view(scope@), name@) == lookup(scope_view(scope@.take(i as int)), name@),
            decreases i,
        {
            proof {
                let t = scope_view(scope@.take(i as int));
                assert(t.drop_last() =~= scope_view(scope@.take(i - 1)));
                assert(t.last() == (scope@[i - 1].name@, scope@[i - 1].id.0));
            }
            if scope[i - 1].name == *name {
                return Some(scope[i - 1].id);
            }
            i -= 1;
        }
        proof {
            assert(scope_view(scope@.take(0)) =~= Seq::empty());
        }
        None
    }

    /// Resolves `name` in the innermost scope that defines it.
    pub fn resolve(&self, name: &String) -> (res: Option<DefId>)
        ensures
            match res {
                Some(id) => self@.resolve(name@) == Some(id.0),
                None => self@.resolve(name@) is None,
            },
    {
        let ghost scopes = self@.scopes;
        let mut i = self.scopes.len();
        proof {
            assert(scopes.take(i as int) =~= scopes);
        }
        while i > 0
            invariant
                i <= self.scopes@.len(),
                scopes == self@.scopes,
                resolve_in(scopes, name@) == resolve_in(scopes.take(i as int), name@),
            decreases i,
        {
            proof {
                let t = scopes.take(i as int);
                assert(t.drop_last() =~= scopes.take(i - 1));
                assert(t.last() == scope_view(self.scopes@[i - 1]@));
            }
            match Self::lookup_scope(&self.scopes[i - 1], name) {
                Some(id) => {
                    return Some(id);
                },
                None => {},
            }
            i -= 1;
        }
        proof {
            assert(scopes.take(0) =~= Seq::<SpecScope>::empty());
        }
        None
    }

    /// Whether the innermost scope defines `name`.
    fn defined_in_scope(&self, name: &String) -> (res: bool)
        requires
            self@.wf(),
        ensures
            res == self@.defined_in_scope(name@),
    {
        let last = self.scopes.len() - 1;
        Self::lookup_scope(&self.scopes[last], name).is_some()
    }

    /// Adds `def` under `name` to the innermost scope and returns its id.
    fn add(&mut self, name: &String, def: DefInfo) -> (res: DefId)
        requires
            old(self)@.wf(),
        ensures
            final(self)@ == old(self)@.with_def(name@, def@),
            res.0 == old(self)@.defs.len(),
    {
        let ghost old_view = self@;
        let id = DefId(self.definitions.len());
        self.definitions.push(def);
        let last = self.scopes.len() - 1;
        self.scopes[last].push(Entry { name: name.clone(), id });
        proof {
            let v = self@;
            let w = old_view.with_def(name@, def@);
            assert(v.defs =~= w.defs);
            assert(v.scopes[last as int] =~= w.scopes[last as int]);
            assert(v.scopes =~= w.scopes);
            assert(v.globals =~= w.globals);
        }
        id
    }

    /// Defines a function in the innermost scope. Returns `None` if the name
    /// is already defined in that scope.
    pub fn define_func(
        &mut self,
        name: &String,
        return_type: DataType,
        params: &Vec<FuncParam>,
        item_id: FuncItemId,
    ) -> (res: Option<DefId>)
        requires
            old(self)@.wf(),
        ensures
            match old(self)@.define_func(
                name@,
                return_type,
                param_types_of(params_view(params@)),
                item_id.0.0,
            ) {
                Some(t) => final(self)@ == t && res == Some(DefId(old(self)@.defs.len() as usize)),
                None => final(self)@ == old(self)@ && res is None,
            },
    {
        if self.defined_in_scope(name) {
            return None;
        }
        let mut param_types: Vec<DataType> = Vec::new();
        let mut i: usize = 0;
        while i < params.len()
            invariant
                i <= params@.len(),
                param_types@ =~= param_types_of(params_view(params@)).take(i as int),
            decreases params@.len() - i,
        {
            param_types.push(params[i].data_type);
            i += 1;
        }
        proof {
            assert(param_types_of(params_view(params@)).take(i as int) =~= param_types_of(
                params_view(params@),
            ));
        }
        let info = FuncInfo { return_type, param_types, item_id, local_vars: Vec::new() };
        proof {
            assert(info@->Func_locals =~= Seq::<usize>::empty());
            assert(info@ == SpecDef::Func {
                return_type,
                params: param_types_of(params_view(params@)),
                item: item_id.0.0,
                locals: Seq::empty(),
            });
        }
        Some(self.add(name, DefInfo::Func(info)))
    }

    /// Defines a global variable in the innermost scope. Returns `None` if
    /// the name is already defined in that scope.
    pub fn define_global_var(
        &mut self,
        name: &String,
        data_type: DataType,
        item_id: GlobalVarItemId,
    ) -> (res: Option<DefId>)
        requires
            old(self)@.wf(),
        ensures
            match old(self)@.define_global(name@, data_type, item_id.0.0) {
                Some(t) => final(self)@ == t && res == Some(DefId(old(self)@.defs.len() as usize)),
                None => final(self)@ == old(self)@ && res is None,
            },
    {
        if self.defined_in_scope(name) {
            return None;
        }
        let ghost old_view = self@;
        let offset = self.global_vars.len();
        let id = self.add(name, DefInfo::GlobalVar(VarInfo { data_type, offset }));
        self.global_vars.push(item_id);
        proof {
            assert(self@.globals =~= old_view.globals.push(item_id.0.0));
        }
        Some(id)
    }

    /// Defines a local variable of the current function in the innermost
    /// scope. Returns `None` if the name is already defined in that scope.
    pub fn define_local_var(&mut self, name: &String, data_type: DataType) -> (res: Option<DefId>)
        requires
            old(self)@.wf(),
            old(self)@.current is Some,
        ensures
            match old(self)@.define_local(name@, data_type) {
                Some(t) => final(self)@ == t && res == Some(DefId(old(self)@.defs.len() as usize)),
                None => final(self)@ == old(self)@ && res is None,
            },
    {
        if self.defined_in_scope(name) {
            return None;
        }
        let ghost old_view = self@;
        let cur = self.current_func.unwrap().0.0;
        let offset = match &self.definitions[cur] {
            DefInfo::Func(f) => f.local_vars.len(),
            _ => 0,
        };
        let id = self.add(name, DefInfo::LocalVar(VarInfo { data_type, offset }));
        let ghost mid_defs = self.definitions@;
        assert(self.definitions@.len() == self@.defs.len());
        assert(old_view.current == Some(cur));
        assert(cur < old_view.defs.len());
        assert(self@.defs[cur as int] == mid_defs[cur as int]@);
        assert(self@.defs[cur as int] == old_view.defs[cur as int]);
        assert(mid_defs[cur as int]@ == old_view.defs[cur as int]);
        match &mut self.definitions[cur] {
            DefInfo::Func(f) => {
                f.local_vars.push(LocalVarDefId(id));
            },
            _ => {},
        }
        proof {
            let v = self@;
            let w = old_view.define_local(name@, data_type).unwrap();
            assert(self.definitions@ == mid_defs.update(cur as int, self.definitions@[cur as int]));
            assert(v.defs[cur as int] == w.defs[cur as int]) by {
                assert(v.defs[cur as int] == self.definitions@[cur as int]@);
                if let DefInfo::Func(f) = self.definitions@[cur as int] {
                    if let DefInfo::Func(g) = mid_defs[cur as int] {
                        assert(f.local_vars@ == g.local_vars@.push(LocalVarDefId(id)));
                        assert(f@->Func_locals =~= old_view.current_locals().push(id.0));
                    }
                }
            }
            assert(v.defs =~= w.defs);
            assert(v.scopes =~= w.scopes);
        }
        Some(id)
    }

    /// Opens a new innermost scope.
    pub fn scope_enter(&mut self)
        ensures
            final(self)@ == old(self)@.enter(),
    {
        let ghost old_view = self@;
        self.scopes.push(Vec::new());
        proof {
            assert(self@.scopes.last() =~= Seq::empty());
            assert(self@.scopes =~= old_view.enter().scopes);
        }
    }

    /// Closes the innermost scope.
    pub fn scope_leave(&mut self)
        requires
            old(self)@.scopes.len() > 1,
        ensures
            final(self)@ == old(self)@.leave(),
    {
        let ghost old_view = self@;
        self.scopes.pop();
        proof {
            assert(self@.scopes =~= old_view.leave().scopes);
        }
    }

    /// Makes `f` the function whose body is analyzed.
    pub fn set_current_func(&mut self, f: FuncDefId)
        ensures
            final(self)@ == old(self)@.with_current(f.0.0),
    {
        self.current_func = Some(f);
    }

    /// The function whose body is analyzed.
    pub fn current_func(&self) -> (res: Option<&FuncInfo>)
        requires
            self@.wf(),
        ensures
            match self@.current {
                Some(c) => res matches Some(f) && f@ == self@.defs[c as int],
                None => res is None,
            },
    {
        match self.current_func {
            Some(f) => match &self.definitions[f.0.0] {
                DefInfo::Func(info) => Some(info),
                _ => None,
            },
            None => None,
        }
    }

    /// Turns the symbol table into the information about the program.
    pub fn into_program_info(self, main_func: Option<FuncDefId>) -> (res: ProgramInfo)
        ensures
            res.definitions@ == self@.defs,
            globals_view(res.global_vars@) == self@.globals,
            res.main_func == main_func,
    {
        ProgramInfo {
            definitions: Definitions { defs: self.definitions },
            global_vars: self.global_vars,
            main_func,
        }
    }
}

/// After a definition is added under `name`, `name` resolves to it, and every
/// other name resolves as before.
pub proof fn law_define_then_resolve(st: SymtabView, name: Seq<char>, d: SpecDef, other: Seq<char>)
    requires
        st.wf(),
    ensures
        st.with_def(name, d).resolve(name) == Some(st.defs.len() as usize),
        st.with_def(name, d).defs[st.defs.len() as int] == d,
        other != name ==> st.with_def(name, d).resolve(other) == st.resolve(other),
{
    let t = st.with_def(name, d);
    assert(t.scopes.last() == st.scopes.last().push((name, st.defs.len() as usize)));
    assert(t.scopes.drop_last() == st.scopes.drop_last());
    assert(t.scopes.last().drop_last() == st.scopes.last());
}

/// A name is defined in at most one place per scope: a definition fails
/// exactly when the innermost scope already defines the name, and then the
/// table is unchanged.
pub proof fn law_define_fails_on_duplicate(st: SymtabView, name: Seq<char>, t: DataType, item: usize)
    ensures
        st.define_global(name, t, item) is None <==> st.defined_in_scope(name),
        st.define_func(name, t, Seq::empty(), item) is None <==> st.defined_in_scope(name),
        st.define_local(name, t) is None <==> st.defined_in_scope(name),
{
}

/// Opening a scope does not change what names resolve to; closing it again
/// restores the table, forgetting the names defined in it.
pub proof fn law_scope_enter_leave(st: SymtabView, name: Seq<char>, d: SpecDef)
    requires
        st.wf(),
    ensures
        st.enter().resolve(name) == st.resolve(name),
        st.enter().leave() == st,
        st.enter().with_def(name, d).leave().resolve(name) == st.resolve(name),
        st.enter().with_def(name, d).resolve(name) == Some(st.defs.len() as usize),
{
    assert(st.enter().scopes.drop_last() =~= st.scopes);
    assert(st.enter().leave().scopes =~= st.scopes);
    let t = st.enter().with_def(name, d);
    assert(t.leave().scopes =~= st.scopes);
    lemma_enter_wf(st);
    law_define_then_resolve(st.enter(), name, d, name);
}

} // verus!
