use vstd::prelude::*;
use crate::diag::{Error, ErrorV};
use crate::ast::{Line, LineV, LabelType, Value, Operand, Instruction, InstructionV, OperandV,
    ValueV};
use crate::isa::{spec_mnemonic_of, spec_register_of, spec_arity, is_jump, mnemonic_of,
    register_of, arity, jump};

verus! {

/// One resolved label: its enclosing global scope (empty for a global
/// label), its name, and its byte offset in the encoded stream.
#[derive(Debug, Clone)]
pub struct LabelDef {
    pub scope: String,
    pub name: String,
    pub offset: u32,
}

/// Mathematical image of a label definition.
#[verifier::ext_equal]
pub struct LabelDefV {
    pub scope: Seq<char>,
    pub name: Seq<char>,
    pub offset: u32,
}

impl DeepView for LabelDef {
    type V = LabelDefV;

    open spec fn deep_view(&self) -> LabelDefV {
        LabelDefV { scope: self.scope@, name: self.name@, offset: self.offset }
    }
}

/// First definition with the given scope and name, from index `k` on.
pub open spec fn spec_lookup_from(
    defs: Seq<LabelDefV>,
    k: int,
    scope: Seq<char>,
    name: Seq<char>,
) -> Option<u32>
    decreases defs.len() - k,
{
    if 0 <= k < defs.len() {
        if defs[k].scope == scope && defs[k].name == name {
            Some(defs[k].offset)
        } else {
            spec_lookup_from(defs, k + 1, scope, name)
        }
    } else {
        None
    }
}

/// Offset of the label with the given scope and name, if it is defined.
pub open spec fn spec_lookup(defs: Seq<LabelDefV>, scope: Seq<char>, name: Seq<char>) -> Option<
    u32,
> {
    spec_lookup_from(defs, 0, scope, name)
}

/// The label table: label keys to byte offsets. A key is the pair of
/// enclosing global scope (empty for globals) and name; the resolver
/// keeps the first definition of each key.
pub struct LabelTable {
    pub defs: Vec<LabelDef>,
}

impl LabelTable {
    /// An empty table.
    pub fn new() -> (r: LabelTable)
        ensures
            r.defs.deep_view() =~= Seq::<LabelDefV>::empty(),
    {
        LabelTable { defs: Vec::new() }
    }

    /// The offset bound to `(scope, name)`, if any.
    pub fn lookup(&self, scope: &String, name: &String) -> (r: Option<u32>)
        ensures
            r == spec_lookup(self.defs.deep_view(), scope@, name@),
    {
        let ghost dv = self.defs.deep_view();
        let n: usize = self.defs.len();
        let mut k: usize = 0;
        while k < n
            invariant
                k <= n,
                n == dv.len(),
                dv == self.defs.deep_view(),
                spec_lookup_from(dv, 0, scope@, name@) == spec_lookup_from(
                    dv,
                    k as int,
                    scope@,
                    name@,
                ),
            decreases n - k,
        {
            let d = &self.defs[k];
            if d.scope.eq(scope) && d.name.eq(name) {
                return Some(d.offset);
            }
            k = k + 1;
        }
        None
    }
}

/// Encoded size of one operand of a non-jump instruction, by its
/// syntactic shape: a register name or an integer, bare or bracketed.
/// Nothing for a name that is no register: such a line encodes to
/// nothing and gets a diagnostic.
pub open spec fn spec_shape_size(op: OperandV) -> Option<int> {
    match op {
        OperandV::Value(ValueV::Id(name)) => if spec_register_of(name) is Some {
            Some(2)
        } else {
            None
        },
        OperandV::Value(ValueV::Int(_)) => Some(5),
        OperandV::Address(ValueV::Id(name)) => if spec_register_of(name) is Some {
            Some(2)
        } else {
            None
        },
        OperandV::Address(ValueV::Int(_)) => Some(5),
    }
}

/// Total encoded size of the operands from index `k` on, or nothing if
/// one of them has no encodable shape.
pub open spec fn spec_ops_size_from(ops: Seq<OperandV>, k: int) -> Option<int>
    decreases ops.len() - k,
{
    if 0 <= k < ops.len() {
        match spec_shape_size(ops[k]) {
            Option::None => None,
            Option::Some(sz) => match spec_ops_size_from(ops, k + 1) {
                Option::None => None,
                Option::Some(rest) => Some(sz + rest),
            },
        }
    } else {
        Some(0)
    }
}

/// The number of bytes encoding this instruction line will lay down:
/// opcode plus operands for an encodable line, six bytes for a jump to
/// a label, and zero for a line the encoder will reject. The resolver
/// and the encoder share this rule, so label offsets match the bytes.
pub open spec fn spec_line_size(instr: InstructionV) -> int {
    match spec_mnemonic_of(instr.operator) {
        Option::None => 0,
        Option::Some(m) => {
            if instr.operands.len() != spec_arity(m) {
                0
            } else if is_jump(m) {
                if instr.operands[0] matches OperandV::Value(ValueV::Id(_)) {
                    6
                } else {
                    0
                }
            } else {
                match spec_ops_size_from(instr.operands, 0) {
                    Option::None => 0,
                    Option::Some(s) => 1 + s,
                }
            }
        },
    }
}

/// Operand sizes are between zero and five bytes each.
pub proof fn lemma_ops_size_range(ops: Seq<OperandV>, k: int)
    requires
        0 <= k <= ops.len(),
    ensures
        spec_ops_size_from(ops, k) matches Some(x) ==> 0 <= x <= 5 * (ops.len() - k),
    decreases ops.len() - k,
{
    if k < ops.len() {
        lemma_ops_size_range(ops, k + 1);
    }
}

/// A line encodes to at most eleven bytes.
pub proof fn lemma_line_size_bounds(instr: InstructionV)
    ensures
        0 <= spec_line_size(instr) <= 11,
{
    if spec_mnemonic_of(instr.operator) is Some {
        let m = spec_mnemonic_of(instr.operator)->Some_0;
        if instr.operands.len() == spec_arity(m) && !is_jump(m) {
            lemma_ops_size_range(instr.operands, 0);
        }
    }
}

/// Maps an optional accumulated size over an optional remainder.
pub open spec fn add_size(s: int, o: Option<int>) -> Option<int> {
    match o {
        Option::None => None,
        Option::Some(x) => Some(s + x),
    }
}

/// The bytes the encoder will lay down for this line.
pub fn line_size(instr: &Instruction) -> (r: usize)
    ensures
        r as int == spec_line_size(instr.deep_view()),
        r <= 11,
{
    let m = match mnemonic_of(&instr.operator) {
        None => {
            return 0;
        },
        Some(m) => m,
    };
    let a = arity(m);
    if instr.operands.len() != a {
        return 0;
    }
    if jump(m) {
        match &instr.operands[0] {
            Operand::Value(Value::Id(_)) => {
                return 6;
            },
            _ => {
                return 0;
            },
        }
    }
    let ghost ops = instr.deep_view().operands;
    let n: usize = instr.operands.len();
    let mut s: usize = 0;
    let mut k: usize = 0;
    while k < n
        invariant
            k <= n,
            n == ops.len(),
            n <= 2,
            s <= 5 * k,
            ops == instr.deep_view().operands,
            spec_mnemonic_of(instr.deep_view().operator) == Some(m),
            instr.deep_view().operands.len() == spec_arity(m),
            !is_jump(m),
            spec_ops_size_from(ops, 0) == add_size(s as int, spec_ops_size_from(ops, k as int)),
        decreases n - k,
    {
        proof {
            assert(ops[k as int] == instr.operands[k as int].deep_view());
        }
        match &instr.operands[k] {
            Operand::Value(Value::Id(name)) => {
                match register_of(name) {
                    Some(_) => {
                        s = s + 2;
                    },
                    None => {
                        proof {
                            assert(spec_shape_size(ops[k as int]) is None);
                            assert(spec_ops_size_from(ops, k as int) is None);
                            assert(spec_ops_size_from(ops, 0) is None);
                            assert(spec_line_size(instr.deep_view()) == 0);
                        }
                        return 0;
                    },
                }
            },
            Operand::Value(Value::Int(_)) => {
                s = s + 5;
            },
            Operand::Address(Value::Id(name)) => {
                match register_of(name) {
                    Some(_) => {
                        s = s + 2;
                    },
                    None => {
                        proof {
                            assert(spec_shape_size(ops[k as int]) is None);
                            assert(spec_ops_size_from(ops, k as int) is None);
                            assert(spec_ops_size_from(ops, 0) is None);
                            assert(spec_line_size(instr.deep_view()) == 0);
                        }
                        return 0;
                    },
                }
            },
            Operand::Address(Value::Int(_)) => {
                s = s + 5;
            },
        }
        k = k + 1;
    }
    1 + s
}

/// The resolver's running state: the definitions so far, the
/// diagnostics so far, the current global scope, and the byte offset
/// the next instruction would begin at.
#[verifier::ext_equal]
pub struct RState {
    pub defs: Seq<LabelDefV>,
    pub diags: Seq<ErrorV>,
    pub scope: Option<Seq<char>>,
    pub off: int,
}

/// One resolver step. A global label binds its bare name unless that
/// name is already bound, and becomes the scope for local labels after
/// it; a local label binds under that scope; redefinition and a local
/// label before any global one each leave one diagnostic and no
/// binding. An instruction moves the offset by its encoded size; past
/// the 32-bit range it leaves a diagnostic instead.
pub open spec fn sp_resolve_line(line: LineV, st: RState) -> RState {
    match line {
        LineV::Label(l) => {
            if l.label_type == LabelType::Global {
                let key_bound = spec_lookup(st.defs, Seq::empty(), l.value) is Some;
                if key_bound {
                    RState {
                        defs: st.defs,
                        diags: st.diags.push(ErrorV { message: "duplicate label"@, pos: l.pos }),
                        scope: Some(l.value),
                        off: st.off,
                    }
                } else {
                    RState {
                        defs: st.defs.push(
                            LabelDefV {
                                scope: Seq::empty(),
                                name: l.value,
                                offset: st.off as u32,
                            },
                        ),
                        diags: st.diags,
                        scope: Some(l.value),
                        off: st.off,
                    }
                }
            } else {
                match st.scope {
                    Option::None => RState {
                        defs: st.defs,
                        diags: st.diags.push(
                            ErrorV { message: "local label without scope"@, pos: l.pos },
                        ),
                        scope: st.scope,
                        off: st.off,
                    },
                    Option::Some(sc) => {
                        if spec_lookup(st.defs, sc, l.value) is Some {
                            RState {
                                defs: st.defs,
                                diags: st.diags.push(
                                    ErrorV { message: "duplicate label"@, pos: l.pos },
                                ),
                                scope: st.scope,
                                off: st.off,
                            }
                        } else {
                            RState {
                                defs: st.defs.push(
                                    LabelDefV { scope: sc, name: l.value, offset: st.off as u32 },
                                ),
                                diags: st.diags,
                                scope: st.scope,
                                off: st.off,
                            }
                        }
                    },
                }
            }
        },
        LineV::Instruction(instr) => {
            let size = spec_line_size(instr);
            if st.off + size > u32::MAX {
                RState {
                    defs: st.defs,
                    diags: st.diags.push(ErrorV { message: "program too large"@, pos: instr.pos }),
                    scope: st.scope,
                    off: st.off,
                }
            } else {
                RState { defs: st.defs, diags: st.diags, scope: st.scope, off: st.off + size }
            }
        },
    }
}

/// The resolver's state after walking the lines from index `k` on.
pub open spec fn sp_resolve_from(lines: Seq<LineV>, k: int, st: RState) -> RState
    decreases lines.len() - k,
{
    if 0 <= k < lines.len() {
        sp_resolve_from(lines, k + 1, sp_resolve_line(lines[k], st))
    } else {
        st
    }
}

/// The resolver's initial state: nothing defined, no diagnostics, no
/// scope, offset zero.
pub open spec fn sp_resolve_init() -> RState {
    RState { defs: Seq::empty(), diags: Seq::empty(), scope: None, off: 0 }
}

/// What resolving a line sequence gives.
pub open spec fn spec_resolve(lines: Seq<LineV>) -> RState {
    sp_resolve_from(lines, 0, sp_resolve_init())
}

/// The view of an optional owned scope name.
pub open spec fn scope_view(scope: Option<String>) -> Option<Seq<char>> {
    match scope {
        Option::Some(s) => Some(s@),
        Option::None => None,
    }
}

/// The offset never leaves the 32-bit range.
pub proof fn lemma_resolve_off_bounds(lines: Seq<LineV>, k: int, st: RState)
    requires
        0 <= k <= lines.len(),
        0 <= st.off <= u32::MAX,
    ensures
        0 <= sp_resolve_from(lines, k, st).off <= u32::MAX,
    decreases lines.len() - k,
{
    if k < lines.len() {
        match lines[k] {
            LineV::Instruction(instr) => lemma_line_size_bounds(instr),
            LineV::Label(_) => (),
        }
        let st2 = sp_resolve_line(lines[k], st);
        assert(0 <= st2.off <= u32::MAX);
        lemma_resolve_off_bounds(lines, k + 1, st2);
    }
}

/// Builds the label table in one forward pass over the parsed lines,
/// sizing each instruction with the encoder's own rule so that both
/// forward and backward references resolve before any byte is emitted.
pub fn resolve(lines: &Vec<Line>) -> (r: (LabelTable, Vec<Error>))
    ensures
        r.0.defs.deep_view() =~= spec_resolve(lines.deep_view()).defs,
        r.1.deep_view() =~= spec_resolve(lines.deep_view()).diags,
{
    let ghost dv = lines.deep_view();
    let mut table = LabelTable::new();
    let mut diags: Vec<Error> = Vec::new();
    let mut scope: Option<String> = None;
    let mut off: u64 = 0;
    let n: usize = lines.len();
    let mut k: usize = 0;
    proof {
        assert((RState {
            defs: table.defs.deep_view(),
            diags: diags.deep_view(),
            scope: scope_view(scope),
            off: off as int,
        }) =~= sp_resolve_init());
    }
    while k < n
        invariant
            k <= n,
            n == dv.len(),
            dv == lines.deep_view(),
            off <= u32::MAX,
            sp_resolve_from(dv, 0, sp_resolve_init()) =~= sp_resolve_from(
                dv,
                k as int,
                (RState {
                    defs: table.defs.deep_view(),
                    diags: diags.deep_view(),
                    scope: scope_view(scope),
                    off: off as int,
                }),
            ),
        decreases n - k,
    {
        let ghost st_here = RState {
            defs: table.defs.deep_view(),
            diags: diags.deep_view(),
            scope: scope_view(scope),
            off: off as int,
        };
        proof {
            assert(dv[k as int] == lines[k as int].deep_view());
        }
        match &lines[k] {
            Line::Label(l) => {
                match l.label_type {
                    LabelType::Global => {
                        let empty_scope = String::new();
                        let bound = table.lookup(&empty_scope, &l.value);
                        if bound.is_some() {
                            let m = String::from_str("duplicate label");
                            diags.push(Error { message: m, pos: l.pos });
                        } else {
                            table.defs.push(
                                LabelDef {
                                    scope: String::new(),
                                    name: l.value.clone(),
                                    offset: off as u32,
                                },
                            );
                        }
                        scope = Some(l.value.clone());
                    },
                    LabelType::Local => {
                        match &scope {
                            None => {
                                let m = String::from_str("local label without scope");
                                diags.push(Error { message: m, pos: l.pos });
                            },
                            Some(sc) => {
                                let bound = table.lookup(sc, &l.value);
                                if bound.is_some() {
                                    let m = String::from_str("duplicate label");
                                    diags.push(Error { message: m, pos: l.pos });
                                } else {
                                    table.defs.push(
                                        LabelDef {
                                            scope: sc.clone(),
                                            name: l.value.clone(),
                                            offset: off as u32,
                                        },
                                    );
                                }
                            },
                        }
                    },
                }
            },
            Line::Instruction(instr) => {
                let size = line_size(instr);
                if off + (size as u64) > 0xffff_ffffu64 {
                    let m = String::from_str("program too large");
                    diags.push(Error { message: m, pos: instr.pos });
                } else {
                    off = off + (size as u64);
                }
            },
        }
        proof {
            assert(RState {
                defs: table.defs.deep_view(),
                diags: diags.deep_view(),
                scope: scope_view(scope),
                off: off as int,
            } =~= sp_resolve_line(dv[k as int], st_here));
        }
        k = k + 1;
    }
    (table, diags)
}


/// No label key appears twice among the definitions.
pub open spec fn keys_unique(defs: Seq<LabelDefV>) -> bool {
    forall|i: int, j: int|
        0 <= i < j < defs.len() ==> !((#[trigger] defs[i]).scope == (#[trigger] defs[j]).scope
            && defs[i].name == defs[j].name)
}

/// A key the lookup does not find is bound by no definition.
proof fn lemma_lookup_none_absent(defs: Seq<LabelDefV>, k: int, scope: Seq<char>, name: Seq<char>)
    requires
        0 <= k <= defs.len(),
        spec_lookup_from(defs, k, scope, name) is None,
    ensures
        forall|j: int|
            k <= j < defs.len() ==> !((#[trigger] defs[j]).scope == scope && defs[j].name == name),
    decreases defs.len() - k,
{
    if k < defs.len() {
        lemma_lookup_none_absent(defs, k + 1, scope, name);
    }
}

proof fn lemma_resolve_keys_unique_from(lines: Seq<LineV>, k: int, st: RState)
    requires
        0 <= k <= lines.len(),
        keys_unique(st.defs),
    ensures
        keys_unique(sp_resolve_from(lines, k, st).defs),
    decreases lines.len() - k,
{
    if k < lines.len() {
        let st2 = sp_resolve_line(lines[k], st);
        match lines[k] {
            LineV::Label(l) => {
                if l.label_type == LabelType::Global {
                    if spec_lookup(st.defs, Seq::empty(), l.value) is None {
                        lemma_lookup_none_absent(st.defs, 0, Seq::empty(), l.value);
                        assert(keys_unique(st2.defs));
                    }
                } else {
                    match st.scope {
                        Option::Some(sc) => {
                            if spec_lookup(st.defs, sc, l.value) is None {
                                lemma_lookup_none_absent(st.defs, 0, sc, l.value);
                                assert(keys_unique(st2.defs));
                            }
                        },
                        Option::None => (),
                    }
                }
            },
            LineV::Instruction(_) => (),
        }
        lemma_resolve_keys_unique_from(lines, k + 1, st2);
    }
}

/// Law: every label key is defined at most once — the table the
/// resolver builds never binds the same scope and name twice, since a
/// redefinition leaves a diagnostic and no binding.
pub proof fn lemma_label_keys_unique(lines: Seq<LineV>)
    ensures
        keys_unique(spec_resolve(lines).defs),
{
    lemma_resolve_keys_unique_from(lines, 0, sp_resolve_init());
}

} // verus!
