//! A compiler from typed programs to the instructions of a stack machine.

use std::sync::Arc;
use vstd::prelude::*;
use crate::symbol::Symbol;
use crate::text::same;

verus! {

/// An instruction of the stack machine. Floating point constants are held by their bits.
#[derive(Debug)]
pub enum Instruction {
    PushInt(i64),
    PushFloat(u64),
    Push(usize),
    PushGlobal(usize),
    Store(usize),
    CallGlobal(usize),
    Construct(usize, usize),
    GetField(usize),
    SetField(usize),
    Split,
    TestTag(usize),
    Jump(usize),
    CJump(usize),
    Pop(usize),
    Slide(usize),
    AddInt,
    SubtractInt,
    MultiplyInt,
    IntLT,
    AddFloat,
    SubtractFloat,
    MultiplyFloat,
    FloatLT,
}

/// The type of an expression.
pub enum VmType {
    Unit,
    Int,
    Float,
    Bool,
    String,
    /// A struct or an enum.
    Data(Symbol),
    Function(Vec<VmType>, Box<VmType>),
}

/// An identifier with its type.
pub struct VmIdent {
    pub name: Symbol,
    pub typ: Arc<VmType>,
}

pub enum VmLiteral {
    Integer(i64),
    /// A floating point number, by its bits.
    Float(u64),
    String(String),
    Bool(bool),
}

/// An expression with its type.
pub struct VmExpr {
    pub value: VmExprKind,
    pub typ: Arc<VmType>,
}

pub enum VmExprKind {
    Literal(VmLiteral),
    Identifier(VmIdent),
    IfElse(Box<VmExpr>, Box<VmExpr>, Box<VmExpr>),
    Block(Vec<VmExpr>),
    BinOp(Box<VmExpr>, Symbol, Box<VmExpr>),
    Let(VmIdent, Box<VmExpr>),
    Call(Box<VmExpr>, Vec<VmExpr>),
    While(Box<VmExpr>, Box<VmExpr>),
    Assign(Box<VmExpr>, Box<VmExpr>),
    FieldAccess(Box<VmExpr>, VmIdent),
    Match(Box<VmExpr>, Vec<VmAlternative>),
}

pub struct VmAlternative {
    pub pattern: VmPattern,
    pub expression: VmExpr,
}

pub enum VmPattern {
    ConstructorPattern(VmIdent, Vec<VmIdent>),
    IdentifierPattern(VmIdent),
}

pub struct VmField {
    pub name: Symbol,
    pub typ: VmType,
}

pub struct VmStruct {
    pub name: Symbol,
    pub fields: Arc<Vec<VmField>>,
}

pub struct VmConstructor {
    pub name: Symbol,
    pub arguments: Vec<VmType>,
}

pub struct VmEnum {
    pub name: Symbol,
    pub constructors: Arc<Vec<VmConstructor>>,
}

pub struct VmFunction {
    pub name: Symbol,
    pub typ: Arc<VmType>,
    pub arguments: Vec<VmField>,
    pub expression: VmExpr,
}

pub struct VmModule {
    pub enums: Vec<VmEnum>,
    pub functions: Vec<VmFunction>,
    pub structs: Vec<VmStruct>,
}

/// Where the value of a name is found.
#[derive(Copy, Clone, Eq, PartialEq, Structural, Debug)]
pub enum Variable {
    Stack(usize),
    Global(usize),
    /// The tag of the constructor and the number of its arguments.
    Constructor(usize, usize),
}

pub struct CompiledFunction {
    pub id: Symbol,
    pub typ: Arc<VmType>,
    pub instructions: Vec<Instruction>,
}

pub enum TypeInfo {
    Struct(Arc<Vec<VmField>>),
    Enum(Arc<Vec<VmConstructor>>),
}

pub struct Assembly {
    pub functions: Vec<CompiledFunction>,
    pub types: Vec<TypeInfo>,
}

/// Names that are known outside of the expression that is compiled.
pub trait CompilerEnv {
    /// What the name `id` stands for.
    spec fn var(&self, id: Seq<char>) -> Option<Variable>;

    /// The position of a field in a struct.
    spec fn field(&self, struct_: Seq<char>, field: Seq<char>) -> Option<usize>;

    /// The position of a constructor in an enum.
    spec fn tag(&self, enum_: Seq<char>, ctor_name: Seq<char>) -> Option<usize>;

    /// The struct and the field, or the enum and the constructor, are not known at all, or both
    /// are.
    spec fn complete(&self, owner: Seq<char>, member: Seq<char>) -> bool;

    fn find_var(&self, id: &Symbol) -> (res: Option<Variable>)
        ensures
            res == self.var(id@),
    ;

    fn find_field(&self, struct_: &Symbol, field: &Symbol) -> (res: Option<usize>)
        requires
            self.complete(struct_@, field@),
        ensures
            res == self.field(struct_@, field@),
    ;

    fn find_tag(&self, enum_: &Symbol, ctor_name: &Symbol) -> (res: Option<usize>)
        requires
            self.complete(enum_@, ctor_name@),
        ensures
            res == self.tag(enum_@, ctor_name@),
    ;
}

impl CompilerEnv for () {
    open spec fn var(&self, id: Seq<char>) -> Option<Variable> {
        None
    }

    open spec fn field(&self, struct_: Seq<char>, field: Seq<char>) -> Option<usize> {
        None
    }

    open spec fn tag(&self, enum_: Seq<char>, ctor_name: Seq<char>) -> Option<usize> {
        None
    }

    open spec fn complete(&self, owner: Seq<char>, member: Seq<char>) -> bool {
        true
    }

    fn find_var(&self, id: &Symbol) -> (res: Option<Variable>) {
        None
    }

    fn find_field(&self, struct_: &Symbol, field: &Symbol) -> (res: Option<usize>) {
        None
    }

    fn find_tag(&self, enum_: &Symbol, ctor_name: &Symbol) -> (res: Option<usize>) {
        None
    }
}

/// The first of the two, if it is known.
pub open spec fn known_or<T>(first: Option<T>, second: Option<T>) -> Option<T> {
    match first {
        Some(_) => first,
        None => second,
    }
}

/// An environment inside another. Tags are found in neither.
impl<T: CompilerEnv, U: CompilerEnv> CompilerEnv for (T, U) {
    open spec fn var(&self, id: Seq<char>) -> Option<Variable> {
        known_or(self.1.var(id), self.0.var(id))
    }

    open spec fn field(&self, struct_: Seq<char>, field: Seq<char>) -> Option<usize> {
        known_or(self.1.field(struct_, field), self.0.field(struct_, field))
    }

    open spec fn tag(&self, enum_: Seq<char>, ctor_name: Seq<char>) -> Option<usize> {
        None
    }

    open spec fn complete(&self, owner: Seq<char>, member: Seq<char>) -> bool {
        self.0.complete(owner, member) && self.1.complete(owner, member)
    }

    fn find_var(&self, id: &Symbol) -> (res: Option<Variable>) {
        match self.1.find_var(id) {
            Some(var) => Some(var),
            None => self.0.find_var(id),
        }
    }

    fn find_field(&self, struct_: &Symbol, field: &Symbol) -> (res: Option<usize>) {
        match self.1.find_field(struct_, field) {
            Some(index) => Some(index),
            None => self.0.find_field(struct_, field),
        }
    }

    fn find_tag(&self, enum_: &Symbol, ctor_name: &Symbol) -> (res: Option<usize>) {
        None
    }
}

/// The position of the first of `names` that is `name`, from `from` on.
pub open spec fn position(names: Seq<Seq<char>>, name: Seq<char>, from: int) -> Option<usize>
    decreases names.len() - from,
{
    if from < 0 || from >= names.len() {
        None
    } else if names[from] == name {
        Some(from as usize)
    } else {
        position(names, name, from + 1)
    }
}

/// Where a name is found, it stands at the position.
pub proof fn position_found(names: Seq<Seq<char>>, name: Seq<char>, from: int)
    requires
        0 <= from,
        names.len() <= usize::MAX,
    ensures
        match position(names, name, from) {
            Some(i) => from <= i < names.len() && names[i as int] == name,
            None => true,
        },
    decreases names.len() - from,
{
    if from < names.len() && names[from] != name {
        position_found(names, name, from + 1);
    }
}

pub open spec fn function_names(functions: Seq<VmFunction>) -> Seq<Seq<char>> {
    functions.map_values(|f: VmFunction| f.name@)
}

pub open spec fn struct_names(structs: Seq<VmStruct>) -> Seq<Seq<char>> {
    structs.map_values(|s: VmStruct| s.name@)
}

pub open spec fn enum_names(enums: Seq<VmEnum>) -> Seq<Seq<char>> {
    enums.map_values(|e: VmEnum| e.name@)
}

pub open spec fn field_names(fields: Seq<VmField>) -> Seq<Seq<char>> {
    fields.map_values(|f: VmField| f.name@)
}

pub open spec fn constructor_names(constructors: Seq<VmConstructor>) -> Seq<Seq<char>> {
    constructors.map_values(|c: VmConstructor| c.name@)
}

/// The constructor `name` in the first of `enums` that has it, from `from` on.
pub open spec fn find_constructor(enums: Seq<VmEnum>, name: Seq<char>, from: int) -> Option<Variable>
    decreases enums.len() - from,
{
    if from < 0 || from >= enums.len() {
        None
    } else {
        let constructors = enums[from].constructors@;
        match position(constructor_names(constructors), name, 0) {
            Some(i) => Some(Variable::Constructor(i, constructors[i as int].arguments.len())),
            None => find_constructor(enums, name, from + 1),
        }
    }
}

fn field_position(fields: &Vec<VmField>, name: &Symbol) -> (res: Option<usize>)
    ensures
        res == position(field_names(fields@), name@, 0),
{
    let ghost all = field_names(fields@);
    let mut i: usize = 0;
    while i < fields.len()
        invariant
            i <= fields@.len(),
            all == field_names(fields@),
            position(all, name@, 0) == position(all, name@, i as int),
        decreases fields@.len() - i,
    {
        assert(all[i as int] == fields@[i as int].name@);
        if fields[i].name == *name {
            return Some(i);
        }
        i += 1;
    }
    None
}

fn constructor_position(constructors: &Vec<VmConstructor>, name: &Symbol) -> (res: Option<usize>)
    ensures
        res == position(constructor_names(constructors@), name@, 0),
        res matches Some(i) ==> i < constructors@.len(),
{
    let ghost all = constructor_names(constructors@);
    let mut i: usize = 0;
    while i < constructors.len()
        invariant
            i <= constructors@.len(),
            all == constructor_names(constructors@),
            position(all, name@, 0) == position(all, name@, i as int),
        decreases constructors@.len() - i,
    {
        assert(all[i as int] == constructors@[i as int].name@);
        if constructors[i].name == *name {
            return Some(i);
        }
        i += 1;
    }
    None
}

fn struct_position(structs: &Vec<VmStruct>, name: &Symbol) -> (res: Option<usize>)
    ensures
        res == position(struct_names(structs@), name@, 0),
        res matches Some(i) ==> i < structs@.len(),
{
    let ghost all = struct_names(structs@);
    let mut i: usize = 0;
    while i < structs.len()
        invariant
            i <= structs@.len(),
            all == struct_names(structs@),
            position(all, name@, 0) == position(all, name@, i as int),
        decreases structs@.len() - i,
    {
        assert(all[i as int] == structs@[i as int].name@);
        if structs[i].name == *name {
            return Some(i);
        }
        i += 1;
    }
    None
}

/// The functions, structs and enums of a module.
impl CompilerEnv for VmModule {
    open spec fn var(&self, id: Seq<char>) -> Option<Variable> {
        match position(function_names(self.functions@), id, 0) {
            Some(i) => Some(Variable::Global(i)),
            None => match position(struct_names(self.structs@), id, 0) {
                Some(i) => Some(Variable::Constructor(0, self.structs@[i as int].fields.len())),
                None => find_constructor(self.enums@, id, 0),
            },
        }
    }

    open spec fn field(&self, struct_: Seq<char>, field: Seq<char>) -> Option<usize> {
        match position(struct_names(self.structs@), struct_, 0) {
            Some(i) => position(field_names(self.structs@[i as int].fields@), field, 0),
            None => None,
        }
    }

    open spec fn tag(&self, enum_: Seq<char>, ctor_name: Seq<char>) -> Option<usize> {
        match position(enum_names(self.enums@), enum_, 0) {
            Some(i) => position(constructor_names(self.enums@[i as int].constructors@), ctor_name, 0),
            None => None,
        }
    }

    open spec fn complete(&self, owner: Seq<char>, member: Seq<char>) -> bool {
        &&& position(struct_names(self.structs@), owner, 0) is Some ==> self.field(owner, member)
            is Some
        &&& position(enum_names(self.enums@), owner, 0) is Some ==> self.tag(owner, member) is Some
    }

    fn find_var(&self, id: &Symbol) -> (res: Option<Variable>) {
        let ghost all = function_names(self.functions@);
        let mut i: usize = 0;
        while i < self.functions.len()
            invariant
                i <= self.functions@.len(),
                all == function_names(self.functions@),
                position(all, id@, 0) == position(all, id@, i as int),
            decreases self.functions@.len() - i,
        {
            assert(all[i as int] == self.functions@[i as int].name@);
            if self.functions[i].name == *id {
                return Some(Variable::Global(i));
            }
            i += 1;
        }
        if let Some(i) = struct_position(&self.structs, id) {
            return Some(Variable::Constructor(0, self.structs[i].fields.len()));
        }
        let mut i: usize = 0;
        while i < self.enums.len()
            invariant
                i <= self.enums@.len(),
                position(function_names(self.functions@), id@, 0) is None,
                position(struct_names(self.structs@), id@, 0) is None,
                find_constructor(self.enums@, id@, 0) == find_constructor(
                    self.enums@,
                    id@,
                    i as int,
                ),
            decreases self.enums@.len() - i,
        {
            let constructors = &self.enums[i].constructors;
            if let Some(tag) = constructor_position(constructors, id) {
                return Some(Variable::Constructor(tag, constructors[tag].arguments.len()));
            }
            i += 1;
        }
        None
    }

    fn find_field(&self, struct_: &Symbol, field: &Symbol) -> (res: Option<usize>) {
        match struct_position(&self.structs, struct_) {
            Some(i) => field_position(&self.structs[i].fields, field),
            None => None,
        }
    }

    fn find_tag(&self, enum_: &Symbol, ctor_name: &Symbol) -> (res: Option<usize>) {
        let ghost all = enum_names(self.enums@);
        let mut i: usize = 0;
        while i < self.enums.len()
            invariant
                i <= self.enums@.len(),
                all == enum_names(self.enums@),
                position(all, enum_@, 0) == position(all, enum_@, i as int),
            decreases self.enums@.len() - i,
        {
            assert(all[i as int] == self.enums@[i as int].name@);
            if self.enums[i].name == *enum_ {
                return constructor_position(&self.enums[i].constructors, ctor_name);
            }
            i += 1;
        }
        None
    }
}

/// The variables on the stack, in the order in which they were put there.
pub type Vars = Seq<(Seq<char>, Variable)>;

pub open spec fn lookup(vars: Vars, name: Seq<char>) -> Option<Variable>
    decreases vars.len(),
{
    if vars.len() == 0 {
        None
    } else if vars.last().0 == name {
        Some(vars.last().1)
    } else {
        lookup(vars.drop_last(), name)
    }
}

pub open spec fn without(vars: Vars, name: Seq<char>) -> Vars
    decreases vars.len(),
{
    if vars.len() == 0 {
        vars
    } else if vars.last().0 == name {
        without(vars.drop_last(), name)
    } else {
        without(vars.drop_last(), name).push(vars.last())
    }
}

/// The code so far and the variables on the stack.
pub struct Emitted {
    pub code: Seq<Instruction>,
    pub vars: Vars,
}

impl Emitted {
    /// One more instruction.
    pub open spec fn push(self, instruction: Instruction) -> Emitted {
        Emitted { code: self.code.push(instruction), vars: self.vars }
    }

    /// The instruction at `at` replaced.
    pub open spec fn patch(self, at: int, instruction: Instruction) -> Emitted {
        Emitted { code: self.code.update(at, instruction), vars: self.vars }
    }

    /// One more variable, at the top of the stack. There may be none of its name.
    pub open spec fn declare(self, name: Seq<char>) -> Option<Emitted> {
        if lookup(self.vars, name) is Some {
            None
        } else {
            Some(
                Emitted {
                    code: self.code,
                    vars: self.vars.push((name, Variable::Stack(self.vars.len() as usize))),
                },
            )
        }
    }

    /// The variable taken off the stack.
    pub open spec fn forget(self, name: Seq<char>) -> Emitted {
        Emitted { code: self.code, vars: without(self.vars, name) }
    }

    /// What `name` stands for.
    pub open spec fn find<E: CompilerEnv>(self, env: E, name: Seq<char>) -> Option<Variable> {
        known_or(lookup(self.vars, name), env.var(name))
    }
}

/// The position of the field of the struct that has type `typ`.
pub open spec fn field_of<E: CompilerEnv>(env: E, typ: VmType, field: Seq<char>) -> Option<usize> {
    match typ {
        VmType::Data(id) => if env.complete(id@, field) {
            env.field(id@, field)
        } else {
            None
        },
        _ => None,
    }
}

/// The name of the struct or enum that `expr` is a value of.
pub open spec fn data_name(expr: VmExpr) -> Option<Seq<char>> {
    match *expr.typ {
        VmType::Data(id) => Some(id@),
        _ => None,
    }
}

/// The instruction for the operator `op` on operands of type `typ`.
pub open spec fn operator(typ: VmType, op: Seq<char>) -> Option<Instruction> {
    match typ {
        VmType::Int => if op == "+"@ {
            Some(Instruction::AddInt)
        } else if op == "-"@ {
            Some(Instruction::SubtractInt)
        } else if op == "*"@ {
            Some(Instruction::MultiplyInt)
        } else if op == "<"@ {
            Some(Instruction::IntLT)
        } else {
            None
        },
        VmType::Float => if op == "+"@ {
            Some(Instruction::AddFloat)
        } else if op == "-"@ {
            Some(Instruction::SubtractFloat)
        } else if op == "*"@ {
            Some(Instruction::MultiplyFloat)
        } else if op == "<"@ {
            Some(Instruction::FloatLT)
        } else {
            None
        },
        _ => None,
    }
}

/// The first `n` of `exprs` compiled one after the other. With `pop` their values are taken off the
/// stack.
pub open spec fn compiled_all<E: CompilerEnv>(
    env: E,
    start: Emitted,
    exprs: Seq<VmExpr>,
    n: nat,
    pop: bool,
) -> Option<Emitted>
    decreases exprs, n,
{
    if n == 0 || n > exprs.len() {
        Some(start)
    } else {
        match compiled_all(env, start, exprs, (n - 1) as nat, pop) {
            None => None,
            Some(s) => match compiled(env, s, exprs[n - 1]) {
                None => None,
                Some(s) => Some(
                    if pop && !(*exprs[n - 1].typ is Unit) {
                        s.push(Instruction::Pop(1))
                    } else {
                        s
                    },
                ),
            },
        }
    }
}

/// The variables that the first `n` of `exprs` declare, taken off the stack.
pub open spec fn forget_lets(start: Emitted, exprs: Seq<VmExpr>, n: nat) -> Emitted
    decreases n,
{
    if n == 0 || n > exprs.len() {
        start
    } else {
        let s = forget_lets(start, exprs, (n - 1) as nat);
        match exprs[n - 1].value {
            VmExprKind::Let(id, _) => s.forget(id.name@),
            _ => s,
        }
    }
}

/// The tests for the first `n` of `alts`, and where their jumps stand.
pub open spec fn tests<E: CompilerEnv>(
    env: E,
    start: Emitted,
    typename: Seq<char>,
    alts: Seq<VmAlternative>,
    n: nat,
) -> Option<(Emitted, Seq<int>)>
    decreases n,
{
    if n == 0 || n > alts.len() {
        Some((start, Seq::empty()))
    } else {
        match tests(env, start, typename, alts, (n - 1) as nat) {
            None => None,
            Some((s, jumps)) => match alts[n - 1].pattern {
                VmPattern::ConstructorPattern(id, _) => if env.complete(typename, id.name@) {
                    match env.tag(typename, id.name@) {
                        Some(tag) => Some(
                            (
                                s.push(Instruction::TestTag(tag)).push(Instruction::CJump(0)),
                                jumps.push(s.code.len() as int + 1),
                            ),
                        ),
                        None => None,
                    }
                } else {
                    None
                },
                VmPattern::IdentifierPattern(_) => Some((s, jumps)),
            },
        }
    }
}

/// Variables for the first `n` of `idents`.
pub open spec fn declared(start: Emitted, idents: Seq<VmIdent>, n: nat) -> Option<Emitted>
    decreases n,
{
    if n == 0 || n > idents.len() {
        Some(start)
    } else {
        match declared(start, idents, (n - 1) as nat) {
            None => None,
            Some(s) => s.declare(idents[n - 1].name@),
        }
    }
}

/// The variables of `pattern`. The value of a constructor is split into them.
pub open spec fn bound(start: Emitted, pattern: VmPattern) -> Option<Emitted> {
    match pattern {
        VmPattern::ConstructorPattern(_, args) => declared(
            start.push(Instruction::Split),
            args@,
            args@.len(),
        ),
        VmPattern::IdentifierPattern(id) => start.declare(id.name@),
    }
}

/// The first `n` of `alts`, as far as there are jumps to them, and where they jump to the end.
pub open spec fn branches<E: CompilerEnv>(
    env: E,
    start: Emitted,
    alts: Seq<VmAlternative>,
    jumps: Seq<int>,
    n: nat,
) -> Option<(Emitted, Seq<int>)>
    decreases alts, n,
{
    if n == 0 || n > alts.len() || n > jumps.len() {
        Some((start, Seq::empty()))
    } else {
        match branches(env, start, alts, jumps, (n - 1) as nat) {
            None => None,
            Some((s, ends)) => match bound(
                s.patch(jumps[n - 1], Instruction::CJump(s.code.len() as usize)),
                alts[n - 1].pattern,
            ) {
                None => None,
                Some(s) => match compiled(env, s, alts[n - 1].expression) {
                    None => None,
                    Some(s) => Some(
                        (s.push(Instruction::Jump(0)), ends.push(s.code.len() as int)),
                    ),
                },
            },
        }
    }
}

/// The first `n` of the jumps at `ends` set to `target`.
pub open spec fn joined(start: Emitted, ends: Seq<int>, n: nat, target: usize) -> Emitted
    decreases n,
{
    if n == 0 || n > ends.len() {
        start
    } else {
        joined(start, ends, (n - 1) as nat, target).patch(ends[n - 1], Instruction::Jump(target))
    }
}

pub open spec fn count_branches(alts: nat, jumps: nat) -> nat {
    if alts <= jumps {
        alts
    } else {
        jumps
    }
}

/// What `expr` compiles to behind the code and with the variables of `start`. There is nothing
/// where `expr` makes no sense: it uses a name that is not known, declares one that is, assigns to
/// what is not a variable, or uses a string, an operator or a constructor in a way that the machine
/// has no instruction for.
pub open spec fn compiled<E: CompilerEnv>(env: E, start: Emitted, expr: VmExpr) -> Option<Emitted>
    decreases expr, 0nat,
{
    match expr.value {
        VmExprKind::Literal(lit) => match lit {
            VmLiteral::Integer(i) => Some(start.push(Instruction::PushInt(i))),
            VmLiteral::Float(bits) => Some(start.push(Instruction::PushFloat(bits))),
            VmLiteral::Bool(b) => Some(start.push(Instruction::PushInt(if b {
                1
            } else {
                0
            }))),
            VmLiteral::String(_) => None,
        },
        VmExprKind::Identifier(id) => match start.find(env, id.name@) {
            Some(Variable::Stack(i)) => Some(start.push(Instruction::Push(i))),
            Some(Variable::Global(i)) => Some(start.push(Instruction::PushGlobal(i))),
            _ => None,
        },
        VmExprKind::IfElse(pred, if_true, if_false) => match compiled(env, start, *pred) {
            None => None,
            Some(s1) => match compiled(env, s1.push(Instruction::CJump(0)), *if_false) {
                None => None,
                Some(s2) => {
                    let s3 = s2.push(Instruction::Jump(0)).patch(
                        s1.code.len() as int,
                        Instruction::CJump((s2.code.len() + 1) as usize),
                    );
                    match compiled(env, s3, *if_true) {
                        None => None,
                        Some(s4) => Some(
                            s4.patch(
                                s2.code.len() as int,
                                Instruction::Jump(s4.code.len() as usize),
                            ),
                        ),
                    }
                },
            },
        },
        VmExprKind::Block(exprs) => {
            let n = exprs@.len();
            let body = if n == 0 {
                Some(start)
            } else {
                match compiled_all(env, start, exprs@, (n - 1) as nat, true) {
                    None => None,
                    Some(s) => compiled(env, s, exprs@[n - 1]),
                }
            };
            match body {
                None => None,
                Some(s) => {
                    let left = forget_lets(s, exprs@, n);
                    let diff = s.vars.len() - left.vars.len();
                    Some(
                        if diff == 0 {
                            left
                        } else if *expr.typ is Unit {
                            left.push(Instruction::Pop(diff as usize))
                        } else {
                            left.push(Instruction::Slide(diff as usize))
                        },
                    )
                },
            }
        },
        VmExprKind::BinOp(lhs, op, rhs) => match compiled(env, start, *lhs) {
            None => None,
            Some(s) => match compiled(env, s, *rhs) {
                None => None,
                Some(s) => match operator(*lhs.typ, op@) {
                    Some(instruction) => Some(s.push(instruction)),
                    None => None,
                },
            },
        },
        VmExprKind::Let(id, value) => match compiled(env, start, *value) {
            None => None,
            Some(s) => match s.declare(id.name@) {
                None => None,
                Some(s) => Some(
                    if *value.typ is Unit {
                        s.push(Instruction::PushInt(0))
                    } else {
                        s
                    },
                ),
            },
        },
        VmExprKind::Call(func, args) => {
            let var = match func.value {
                VmExprKind::Identifier(id) => start.find(env, id.name@),
                _ => Some(Variable::Stack(0)),
            };
            match var {
                None => None,
                Some(Variable::Constructor(tag, num_args)) => match compiled_all(
                    env,
                    start,
                    args@,
                    args@.len(),
                    false,
                ) {
                    None => None,
                    Some(s) => Some(s.push(Instruction::Construct(tag, num_args))),
                },
                Some(_) => match compiled(env, start, *func) {
                    None => None,
                    Some(s) => match compiled_all(env, s, args@, args@.len(), false) {
                        None => None,
                        Some(s) => Some(s.push(Instruction::CallGlobal(args@.len() as usize))),
                    },
                },
            }
        },
        VmExprKind::While(pred, body) => {
            let jump = start.code.len();
            match compiled(env, start.push(Instruction::Jump(0)), *body) {
                None => None,
                Some(s) => match compiled(
                    env,
                    s.patch(jump as int, Instruction::Jump(s.code.len() as usize)),
                    *pred,
                ) {
                    None => None,
                    Some(s) => Some(s.push(Instruction::CJump((jump + 1) as usize))),
                },
            }
        },
        VmExprKind::Assign(lhs, rhs) => match compiled(env, start, *rhs) {
            None => None,
            Some(s) => match lhs.value {
                VmExprKind::Identifier(id) => match s.find(env, id.name@) {
                    Some(Variable::Stack(i)) => Some(s.push(Instruction::Store(i))),
                    _ => None,
                },
                VmExprKind::FieldAccess(owner, field) => match compiled(env, s, *owner) {
                    None => None,
                    Some(s) => match field_of(env, *owner.typ, field.name@) {
                        Some(i) => Some(s.push(Instruction::SetField(i))),
                        None => None,
                    },
                },
                _ => None,
            },
        },
        VmExprKind::FieldAccess(owner, field) => match compiled(env, start, *owner) {
            None => None,
            Some(s) => match field_of(env, *owner.typ, field.name@) {
                Some(i) => Some(s.push(Instruction::GetField(i))),
                None => None,
            },
        },
        VmExprKind::Match(value, alts) => match (compiled(env, start, *value), data_name(*value)) {
            (Some(s), Some(id)) => match tests(env, s, id, alts@, alts@.len()) {
                None => None,
                Some((s, jumps)) => match branches(
                    env,
                    s,
                    alts@,
                    jumps,
                    count_branches(alts@.len(), jumps.len()),
                ) {
                    None => None,
                    Some((s, ends)) => Some(joined(s, ends, ends.len(), s.code.len() as usize)),
                },
            },
            _ => None,
        },
    }
}

/// `s` has all of the code of `start`, unchanged, before its own.
pub open spec fn extends(start: Emitted, s: Emitted) -> bool {
    &&& start.code.len() <= s.code.len()
    &&& forall|i: int| 0 <= i < start.code.len() ==> #[trigger] s.code[i] == start.code[i]
}

/// All of `positions` lie behind the code of `start` and within that of `s`.
pub open spec fn within(positions: Seq<int>, start: Emitted, s: Emitted) -> bool {
    forall|i: int|
        0 <= i < positions.len() ==> start.code.len() <= #[trigger] positions[i] < s.code.len()
}

proof fn without_shrinks(vars: Vars, name: Seq<char>)
    ensures
        without(vars, name).len() <= vars.len(),
    decreases vars.len(),
{
    if vars.len() > 0 {
        without_shrinks(vars.drop_last(), name);
    }
}

pub(crate) proof fn forget_lets_keeps_code(start: Emitted, exprs: Seq<VmExpr>, n: nat)
    ensures
        forget_lets(start, exprs, n).code == start.code,
        forget_lets(start, exprs, n).vars.len() <= start.vars.len(),
    decreases n,
{
    if n > 0 && n <= exprs.len() {
        forget_lets_keeps_code(start, exprs, (n - 1) as nat);
        match exprs[n - 1].value {
            VmExprKind::Let(id, _) => {
                without_shrinks(forget_lets(start, exprs, (n - 1) as nat).vars, id.name@);
            },
            _ => {},
        }
    }
}

proof fn tests_extend<E: CompilerEnv>(
    env: E,
    start: Emitted,
    typename: Seq<char>,
    alts: Seq<VmAlternative>,
    n: nat,
)
    ensures
        tests(env, start, typename, alts, n) matches Some((s, jumps)) ==> extends(start, s)
            && within(jumps, start, s) && jumps.len() <= n && s.vars == start.vars,
    decreases n,
{
    if n > 0 && n <= alts.len() {
        tests_extend(env, start, typename, alts, (n - 1) as nat);
    }
}

pub(crate) proof fn declared_extends(start: Emitted, idents: Seq<VmIdent>, n: nat)
    ensures
        declared(start, idents, n) matches Some(s) ==> s.code == start.code,
    decreases n,
{
    if n > 0 && n <= idents.len() {
        declared_extends(start, idents, (n - 1) as nat);
    }
}

proof fn branches_extend<E: CompilerEnv>(
    env: E,
    base: Emitted,
    start: Emitted,
    alts: Seq<VmAlternative>,
    jumps: Seq<int>,
    n: nat,
)
    requires
        extends(base, start),
        within(jumps, base, start),
    ensures
        branches(env, start, alts, jumps, n) matches Some((s, ends)) ==> extends(base, s)
            && start.code.len() <= s.code.len() && within(ends, base, s),
    decreases alts, n,
{
    if n > 0 && n <= alts.len() && n <= jumps.len() {
        branches_extend(env, base, start, alts, jumps, (n - 1) as nat);
        if let Some((s, ends)) = branches(env, start, alts, jumps, (n - 1) as nat) {
            let patched = s.patch(jumps[n - 1], Instruction::CJump(s.code.len() as usize));
            assert(extends(base, patched));
            let pattern = alts[n - 1].pattern;
            if let VmPattern::ConstructorPattern(_, args) = pattern {
                declared_extends(patched.push(Instruction::Split), args@, args@.len());
            }
            if let Some(s2) = bound(patched, pattern) {
                assert(extends(base, s2));
                compiled_extends(env, s2, alts[n - 1].expression);
            }
        }
    }
}

proof fn joined_extends(base: Emitted, start: Emitted, ends: Seq<int>, n: nat, target: usize)
    requires
        extends(base, start),
        within(ends, base, start),
    ensures
        extends(base, joined(start, ends, n, target)),
        joined(start, ends, n, target).code.len() == start.code.len(),
        joined(start, ends, n, target).vars == start.vars,
    decreases n,
{
    if n > 0 && n <= ends.len() {
        joined_extends(base, start, ends, (n - 1) as nat, target);
    }
}

pub(crate) proof fn compiled_all_extends<E: CompilerEnv>(
    env: E,
    start: Emitted,
    exprs: Seq<VmExpr>,
    n: nat,
    pop: bool,
)
    ensures
        compiled_all(env, start, exprs, n, pop) matches Some(s) ==> extends(start, s),
    decreases exprs, n,
{
    if n > 0 && n <= exprs.len() {
        compiled_all_extends(env, start, exprs, (n - 1) as nat, pop);
        if let Some(s) = compiled_all(env, start, exprs, (n - 1) as nat, pop) {
            compiled_extends(env, s, exprs[n - 1]);
        }
    }
}

/// Compilation only adds to the code: what was there before stays unchanged.
#[verifier::rlimit(30)]
pub proof fn compiled_extends<E: CompilerEnv>(env: E, start: Emitted, expr: VmExpr)
    ensures
        compiled(env, start, expr) matches Some(s) ==> extends(start, s),
    decreases expr, 0nat,
{
    match expr.value {
        VmExprKind::IfElse(pred, if_true, if_false) => {
            compiled_extends(env, start, *pred);
            if let Some(s1) = compiled(env, start, *pred) {
                compiled_extends(env, s1.push(Instruction::CJump(0)), *if_false);
                if let Some(s2) = compiled(env, s1.push(Instruction::CJump(0)), *if_false) {
                    let s3 = s2.push(Instruction::Jump(0)).patch(
                        s1.code.len() as int,
                        Instruction::CJump((s2.code.len() + 1) as usize),
                    );
                    assert(extends(start, s3));
                    compiled_extends(env, s3, *if_true);
                }
            }
        },
        VmExprKind::Block(exprs) => {
            let n = exprs@.len();
            if n == 0 {
                forget_lets_keeps_code(start, exprs@, n);
            } else {
                compiled_all_extends(env, start, exprs@, (n - 1) as nat, true);
                if let Some(s) = compiled_all(env, start, exprs@, (n - 1) as nat, true) {
                    assert(decreases_to!(exprs@ => exprs@[n - 1]));
                    compiled_extends(env, s, exprs@[n - 1]);
                    if let Some(s) = compiled(env, s, exprs@[n - 1]) {
                        forget_lets_keeps_code(s, exprs@, n);
                    }
                }
            }
        },
        VmExprKind::BinOp(lhs, _, rhs) => {
            compiled_extends(env, start, *lhs);
            if let Some(s) = compiled(env, start, *lhs) {
                compiled_extends(env, s, *rhs);
            }
        },
        VmExprKind::Let(_, value) => {
            compiled_extends(env, start, *value);
        },
        VmExprKind::Call(func, args) => {
            compiled_all_extends(env, start, args@, args@.len(), false);
            compiled_extends(env, start, *func);
            if let Some(s) = compiled(env, start, *func) {
                compiled_all_extends(env, s, args@, args@.len(), false);
            }
        },
        VmExprKind::While(pred, body) => {
            let jump = start.code.len();
            compiled_extends(env, start.push(Instruction::Jump(0)), *body);
            if let Some(s) = compiled(env, start.push(Instruction::Jump(0)), *body) {
                compiled_extends(
                    env,
                    s.patch(jump as int, Instruction::Jump(s.code.len() as usize)),
                    *pred,
                );
            }
        },
        VmExprKind::Assign(lhs, rhs) => {
            compiled_extends(env, start, *rhs);
            if let Some(s) = compiled(env, start, *rhs) {
                if let VmExprKind::FieldAccess(owner, _) = lhs.value {
                    compiled_extends(env, s, *owner);
                }
            }
        },
        VmExprKind::FieldAccess(owner, _) => {
            compiled_extends(env, start, *owner);
        },
        VmExprKind::Match(value, alts) => {
            compiled_extends(env, start, *value);
            if let (Some(s), Some(id)) = (compiled(env, start, *value), data_name(*value)) {
                tests_extend(env, s, id, alts@, alts@.len());
                if let Some((t, jumps)) = tests(env, s, id, alts@, alts@.len()) {
                    let n = count_branches(alts@.len(), jumps.len());
                    branches_extend(env, s, t, alts@, jumps, n);
                    if let Some((b, ends)) = branches(env, t, alts@, jumps, n) {
                        joined_extends(s, b, ends, ends.len(), b.code.len() as usize);
                    }
                }
            }
        },
        _ => {},
    }
}

/// Where `instruction` jumps to.
pub open spec fn target(instruction: Instruction) -> Option<usize> {
    match instruction {
        Instruction::Jump(to) => Some(to),
        Instruction::CJump(to) => Some(to),
        _ => None,
    }
}

/// No jump in the code goes beyond its end.
pub open spec fn jumps_land(s: Emitted) -> bool {
    forall|i: int|
        0 <= i < s.code.len() ==> (target(#[trigger] s.code[i]) matches Some(to) ==> to
            <= s.code.len())
}

proof fn push_lands(s: Emitted, instruction: Instruction)
    requires
        jumps_land(s),
        target(instruction) matches Some(to) ==> to <= s.code.len() + 1,
    ensures
        jumps_land(s.push(instruction)),
{
}

proof fn patch_lands(s: Emitted, at: int, instruction: Instruction)
    requires
        jumps_land(s),
        0 <= at < s.code.len(),
        target(instruction) matches Some(to) ==> to <= s.code.len(),
    ensures
        jumps_land(s.patch(at, instruction)),
{
}

proof fn tests_land<E: CompilerEnv>(
    env: E,
    start: Emitted,
    typename: Seq<char>,
    alts: Seq<VmAlternative>,
    n: nat,
)
    requires
        jumps_land(start),
    ensures
        tests(env, start, typename, alts, n) matches Some((s, _)) ==> jumps_land(s),
    decreases n,
{
    if n > 0 && n <= alts.len() {
        tests_land(env, start, typename, alts, (n - 1) as nat);
    }
}

proof fn branches_land<E: CompilerEnv>(
    env: E,
    base: Emitted,
    start: Emitted,
    alts: Seq<VmAlternative>,
    jumps: Seq<int>,
    n: nat,
)
    requires
        extends(base, start),
        within(jumps, base, start),
        jumps_land(start),
        branches(env, start, alts, jumps, n) matches Some((s, _)) ==> s.code.len() <= usize::MAX,
    ensures
        branches(env, start, alts, jumps, n) matches Some((s, _)) ==> jumps_land(s),
    decreases alts, n,
{
    if n > 0 && n <= alts.len() && n <= jumps.len() {
        branches_extend(env, base, start, alts, jumps, (n - 1) as nat);
        if let Some((s, ends)) = branches(env, start, alts, jumps, (n - 1) as nat) {
            let patched = s.patch(jumps[n - 1], Instruction::CJump(s.code.len() as usize));
            let pattern = alts[n - 1].pattern;
            if let VmPattern::ConstructorPattern(_, args) = pattern {
                declared_extends(patched.push(Instruction::Split), args@, args@.len());
            }
            if let Some(s2) = bound(patched, pattern) {
                compiled_extends(env, s2, alts[n - 1].expression);
                if let Some(s3) = compiled(env, s2, alts[n - 1].expression) {
                    branches_land(env, base, start, alts, jumps, (n - 1) as nat);
                    patch_lands(s, jumps[n - 1], Instruction::CJump(s.code.len() as usize));
                    assert(jumps_land(s2));
                    assert(decreases_to!(alts => alts[n - 1]));
                    assert(decreases_to!(alts[n - 1] => alts[n - 1].expression));
                    compiled_lands(env, s2, alts[n - 1].expression);
                }
            }
        }
    }
}

proof fn joined_lands(base: Emitted, start: Emitted, ends: Seq<int>, n: nat, to: usize)
    requires
        extends(base, start),
        within(ends, base, start),
        jumps_land(start),
        to <= start.code.len(),
    ensures
        jumps_land(joined(start, ends, n, to)),
    decreases n,
{
    if n > 0 && n <= ends.len() {
        joined_lands(base, start, ends, (n - 1) as nat, to);
        joined_extends(base, start, ends, (n - 1) as nat, to);
        patch_lands(
            joined(start, ends, (n - 1) as nat, to),
            ends[n - 1],
            Instruction::Jump(to),
        );
    }
}

proof fn compiled_all_lands<E: CompilerEnv>(
    env: E,
    start: Emitted,
    exprs: Seq<VmExpr>,
    n: nat,
    pop: bool,
)
    requires
        jumps_land(start),
        compiled_all(env, start, exprs, n, pop) matches Some(s) ==> s.code.len() <= usize::MAX,
    ensures
        compiled_all(env, start, exprs, n, pop) matches Some(s) ==> jumps_land(s),
    decreases exprs, n,
{
    if n > 0 && n <= exprs.len() {
        if let Some(s) = compiled_all(env, start, exprs, (n - 1) as nat, pop) {
            compiled_extends(env, s, exprs[n - 1]);
            if let Some(t) = compiled(env, s, exprs[n - 1]) {
                compiled_all_lands(env, start, exprs, (n - 1) as nat, pop);
                assert(decreases_to!(exprs => exprs[n - 1]));
                compiled_lands(env, s, exprs[n - 1]);
            }
        }
    }
}

/// No jump in code that was compiled goes beyond its end.
#[verifier::rlimit(30)]
pub proof fn compiled_lands<E: CompilerEnv>(env: E, start: Emitted, expr: VmExpr)
    requires
        jumps_land(start),
        compiled(env, start, expr) matches Some(s) ==> s.code.len() <= usize::MAX,
    ensures
        compiled(env, start, expr) matches Some(s) ==> jumps_land(s),
    decreases expr, 0nat,
{
    match expr.value {
        VmExprKind::IfElse(pred, if_true, if_false) => {
            compiled_extends(env, start, *pred);
            if let Some(s1) = compiled(env, start, *pred) {
                let s1j = s1.push(Instruction::CJump(0));
                compiled_extends(env, s1j, *if_false);
                if let Some(s2) = compiled(env, s1j, *if_false) {
                    let s2j = s2.push(Instruction::Jump(0));
                    let cjump = Instruction::CJump((s2.code.len() + 1) as usize);
                    let s3 = s2j.patch(s1.code.len() as int, cjump);
                    compiled_extends(env, s3, *if_true);
                    if let Some(s4) = compiled(env, s3, *if_true) {
                        compiled_lands(env, start, *pred);
                        push_lands(s1, Instruction::CJump(0));
                        compiled_lands(env, s1j, *if_false);
                        push_lands(s2, Instruction::Jump(0));
                        patch_lands(s2j, s1.code.len() as int, cjump);
                        compiled_lands(env, s3, *if_true);
                        patch_lands(
                            s4,
                            s2.code.len() as int,
                            Instruction::Jump(s4.code.len() as usize),
                        );
                    }
                }
            }
        },
        VmExprKind::Block(exprs) => {
            let n = exprs@.len();
            if n == 0 {
                forget_lets_keeps_code(start, exprs@, n);
            } else {
                if let Some(s) = compiled_all(env, start, exprs@, (n - 1) as nat, true) {
                    assert(decreases_to!(exprs@ => exprs@[n - 1]));
                    compiled_extends(env, s, exprs@[n - 1]);
                    if let Some(t) = compiled(env, s, exprs@[n - 1]) {
                        forget_lets_keeps_code(t, exprs@, n);
                        compiled_all_lands(env, start, exprs@, (n - 1) as nat, true);
                        compiled_lands(env, s, exprs@[n - 1]);
                    }
                }
            }
        },
        VmExprKind::BinOp(lhs, op, rhs) => {
            if let Some(s) = compiled(env, start, *lhs) {
                compiled_extends(env, s, *rhs);
                if compiled(env, start, expr) is Some {
                    compiled_lands(env, start, *lhs);
                    compiled_lands(env, s, *rhs);
                }
            }
        },
        VmExprKind::Let(id, value) => {
            if compiled(env, start, expr) is Some {
                compiled_lands(env, start, *value);
            }
        },
        VmExprKind::Call(func, args) => {
            if compiled(env, start, expr) is Some {
                let var = match func.value {
                    VmExprKind::Identifier(id) => start.find(env, id.name@),
                    _ => Some(Variable::Stack(0)),
                };
                match var {
                    Some(Variable::Constructor(_, _)) => {
                        compiled_all_lands(env, start, args@, args@.len(), false);
                    },
                    _ => {
                        if let Some(s) = compiled(env, start, *func) {
                            compiled_all_extends(env, s, args@, args@.len(), false);
                            compiled_lands(env, start, *func);
                            compiled_all_lands(env, s, args@, args@.len(), false);
                        }
                    },
                }
            }
        },
        VmExprKind::While(pred, body) => {
            let jump = start.code.len();
            let first = start.push(Instruction::Jump(0));
            compiled_extends(env, first, *body);
            if let Some(s) = compiled(env, first, *body) {
                let to = Instruction::Jump(s.code.len() as usize);
                let patched = s.patch(jump as int, to);
                compiled_extends(env, patched, *pred);
                if let Some(t) = compiled(env, patched, *pred) {
                    push_lands(start, Instruction::Jump(0));
                    compiled_lands(env, first, *body);
                    patch_lands(s, jump as int, to);
                    compiled_lands(env, patched, *pred);
                    push_lands(t, Instruction::CJump((jump + 1) as usize));
                }
            }
        },
        VmExprKind::Assign(lhs, rhs) => {
            if compiled(env, start, expr) is Some {
                if let Some(s) = compiled(env, start, *rhs) {
                    if let VmExprKind::FieldAccess(owner, _) = lhs.value {
                        compiled_extends(env, s, *owner);
                        compiled_lands(env, start, *rhs);
                        compiled_lands(env, s, *owner);
                    } else {
                        compiled_lands(env, start, *rhs);
                    }
                }
            }
        },
        VmExprKind::FieldAccess(owner, _) => {
            if compiled(env, start, expr) is Some {
                compiled_lands(env, start, *owner);
            }
        },
        VmExprKind::Match(value, alts) => {
            if let (Some(s), Some(id)) = (compiled(env, start, *value), data_name(*value)) {
                tests_extend(env, s, id, alts@, alts@.len());
                if let Some((t, jumps)) = tests(env, s, id, alts@, alts@.len()) {
                    let n = count_branches(alts@.len(), jumps.len());
                    branches_extend(env, s, t, alts@, jumps, n);
                    if let Some((b, ends)) = branches(env, t, alts@, jumps, n) {
                        joined_extends(s, b, ends, ends.len(), b.code.len() as usize);
                        compiled_lands(env, start, *value);
                        tests_land(env, s, id, alts@, alts@.len());
                        branches_land(env, s, t, alts@, jumps, n);
                        joined_lands(s, b, ends, ends.len(), b.code.len() as usize);
                    }
                }
            }
        },
        _ => {},
    }
}

/// Compiles expressions.
pub struct Compiler<'a, E: CompilerEnv> {
    globals: &'a E,
    stack: Vec<(Symbol, Variable)>,
}

pub open spec fn stack_view(stack: Seq<(Symbol, Variable)>) -> Vars {
    stack.map_values(|v: (Symbol, Variable)| (v.0@, v.1))
}

fn is_unit(typ: &VmType) -> (res: bool)
    ensures
        res == (*typ is Unit),
{
    match typ {
        VmType::Unit => true,
        _ => false,
    }
}

fn find_operator(typ: &VmType, op: &Symbol) -> (res: Option<Instruction>)
    ensures
        res == operator(*typ, op@),
{
    let op = op.as_str();
    match typ {
        VmType::Int => if same(op, "+") {
            Some(Instruction::AddInt)
        } else if same(op, "-") {
            Some(Instruction::SubtractInt)
        } else if same(op, "*") {
            Some(Instruction::MultiplyInt)
        } else if same(op, "<") {
            Some(Instruction::IntLT)
        } else {
            None
        },
        VmType::Float => if same(op, "+") {
            Some(Instruction::AddFloat)
        } else if same(op, "-") {
            Some(Instruction::SubtractFloat)
        } else if same(op, "*") {
            Some(Instruction::MultiplyFloat)
        } else if same(op, "<") {
            Some(Instruction::FloatLT)
        } else {
            None
        },
        _ => None,
    }
}

impl<'a, E: CompilerEnv> Compiler<'a, E> {
    /// The variables on the stack.
    pub closed spec fn vars(&self) -> Vars {
        stack_view(self.stack@)
    }

    /// The names known outside.
    pub closed spec fn env(&self) -> E {
        *self.globals
    }

    pub open spec fn emitted(&self, code: Seq<Instruction>) -> Emitted {
        Emitted { code, vars: self.vars() }
    }

    /// A compiler that knows the names in `globals`.
    pub fn new(globals: &'a E) -> (res: Compiler<'a, E>)
        ensures
            res.env() == *globals,
            res.vars() == Seq::<(Seq<char>, Variable)>::empty(),
    {
        let res = Compiler { globals, stack: Vec::new() };
        assert(res.vars() =~= Seq::<(Seq<char>, Variable)>::empty());
        res
    }

    fn find_stack(&self, name: &Symbol) -> (res: Option<Variable>)
        ensures
            res == lookup(self.vars(), name@),
    {
        let ghost vars = self.vars();
        let mut i: usize = self.stack.len();
        assert(vars.take(i as int) =~= vars);
        while i > 0
            invariant
                i <= self.stack@.len(),
                vars == stack_view(self.stack@),
                lookup(vars, name@) == lookup(vars.take(i as int), name@),
            decreases i,
        {
            i -= 1;
            proof {
                assert(vars.take(i + 1).drop_last() =~= vars.take(i as int));
                assert(vars.take(i + 1).last() == vars[i as int]);
            }
            if self.stack[i].0 == *name {
                return Some(self.stack[i].1);
            }
        }
        None
    }

    fn find(&self, name: &Symbol) -> (res: Option<Variable>)
        ensures
            res == known_or(lookup(self.vars(), name@), self.env().var(name@)),
    {
        match self.find_stack(name) {
            Some(var) => Some(var),
            None => self.globals.find_var(name),
        }
    }

    fn find_field_of(&self, typ: &VmType, field: &Symbol) -> (res: Option<usize>)
        requires
            field_of(self.env(), *typ, field@) is Some,
        ensures
            res == field_of(self.env(), *typ, field@),
    {
        match typ {
            VmType::Data(id) => self.globals.find_field(id, field),
            _ => None,
        }
    }

    fn new_stack_var(&mut self, name: &Symbol)
        requires
            lookup(old(self).vars(), name@) is None,
        ensures
            final(self).env() == old(self).env(),
            forall|code: Seq<Instruction>| #[trigger]
                old(self).emitted(code).declare(name@) == Some(final(self).emitted(code)),
    {
        let v = Variable::Stack(self.stack.len());
        self.stack.push((name.clone(), v));
        assert(self.vars() =~= old(self).vars().push((name@, v)));
    }

    fn remove(&mut self, name: &Symbol)
        ensures
            final(self).env() == old(self).env(),
            final(self).vars() == without(old(self).vars(), name@),
    {
        let mut kept: Vec<(Symbol, Variable)> = Vec::new();
        let ghost vars = self.vars();
        let mut i: usize = 0;
        assert(vars.take(0) =~= Seq::<(Seq<char>, Variable)>::empty());
        assert(stack_view(kept@) =~= vars.take(0));
        while i < self.stack.len()
            invariant
                i <= self.stack@.len(),
                vars == stack_view(self.stack@),
                stack_view(kept@) == without(vars.take(i as int), name@),
            decreases self.stack@.len() - i,
        {
            proof {
                assert(vars.take(i + 1).drop_last() =~= vars.take(i as int));
                assert(vars.take(i + 1).last() == vars[i as int]);
            }
            if self.stack[i].0 != *name {
                let ghost before = stack_view(kept@);
                kept.push((self.stack[i].0.clone(), self.stack[i].1));
                assert(stack_view(kept@) =~= before.push(vars[i as int]));
            }
            i += 1;
        }
        assert(vars.take(i as int) =~= vars);
        self.stack = kept;
    }

    /// Compiles the functions of `module` one after the other.
    #[verifier::rlimit(30)]
    pub fn compile_module(&mut self, module: &VmModule) -> (res: Assembly)
        requires
            module_compiled(
                old(self).env(),
                old(self).vars(),
                module.functions@,
                module.functions@.len(),
            ) is Some,
        ensures
            final(self).env() == old(self).env(),
            module_compiled(
                old(self).env(),
                old(self).vars(),
                module.functions@,
                module.functions@.len(),
            ) == Some((functions_view(res.functions@), final(self).vars())),
            res.types@ == type_infos(module),
    {
        let ghost vars = self.vars();
        let ghost n = module.functions@.len();
        let mut functions: Vec<CompiledFunction> = Vec::new();
        let mut i: usize = 0;
        assert(functions_view(functions@) =~= Seq::<FunctionCode>::empty());
        while i < module.functions.len()
            invariant
                i <= module.functions@.len(),
                n == module.functions@.len(),
                self.env() == old(self).env(),
                module_compiled(self.env(), vars, module.functions@, n) is Some,
                module_compiled(self.env(), vars, module.functions@, i as nat) == Some(
                    (functions_view(functions@), self.vars()),
                ),
            decreases module.functions@.len() - i,
        {
            proof {
                module_compiled_before(self.env(), vars, module.functions@, (i + 1) as nat, n);
            }
            let ghost before = functions_view(functions@);
            let function = self.compile_function(&module.functions[i]);
            let ghost code = FunctionCode {
                id: function.id@,
                typ: function.typ,
                instructions: function.instructions@,
            };
            functions.push(function);
            assert(functions_view(functions@) =~= before.push(code));
            i += 1;
        }
        let mut types: Vec<TypeInfo> = Vec::new();
        let mut i: usize = 0;
        let ghost infos = type_infos(module);
        while i < module.structs.len()
            invariant
                i <= module.structs@.len(),
                infos == type_infos(module),
                types@ == infos.take(i as int),
            decreases module.structs@.len() - i,
        {
            types.push(TypeInfo::Struct(module.structs[i].fields.clone()));
            assert(types@ =~= infos.take(i + 1));
            i += 1;
        }
        let mut j: usize = 0;
        while j < module.enums.len()
            invariant
                j <= module.enums@.len(),
                infos == type_infos(module),
                types@ == infos.take(module.structs@.len() + j),
            decreases module.enums@.len() - j,
        {
            types.push(TypeInfo::Enum(module.enums[j].constructors.clone()));
            assert(types@ =~= infos.take(module.structs@.len() + j + 1));
            j += 1;
        }
        assert(types@ =~= infos);
        Assembly { functions, types }
    }

    /// Compiles a function. Its arguments are on the stack only while it is compiled.
    pub fn compile_function(&mut self, function: &VmFunction) -> (res: CompiledFunction)
        requires
            function_compiled(old(self).env(), old(self).vars(), *function) is Some,
        ensures
            final(self).env() == old(self).env(),
            function_compiled(old(self).env(), old(self).vars(), *function) == Some(
                (
                    FunctionCode {
                        id: res.id@,
                        typ: res.typ,
                        instructions: res.instructions@,
                    },
                    final(self).vars(),
                ),
            ),
    {
        let ghost start = self.emitted(Seq::empty());
        let ghost args = function.arguments@;
        let mut i: usize = 0;
        while i < function.arguments.len()
            invariant
                i <= function.arguments@.len(),
                args == function.arguments@,
                self.env() == old(self).env(),
                arguments_declared(start, args, args.len()) is Some,
                arguments_declared(start, args, i as nat) == Some(self.emitted(Seq::empty())),
            decreases function.arguments@.len() - i,
        {
            proof {
                arguments_declared_before(start, args, (i + 1) as nat, args.len());
            }
            self.new_stack_var(&function.arguments[i].name);
            i += 1;
        }
        let mut instructions: Vec<Instruction> = Vec::new();
        assert(instructions@ =~= Seq::<Instruction>::empty());
        self.compile(&function.expression, &mut instructions);
        let ghost end = self.vars();
        let mut j: usize = 0;
        while j < function.arguments.len()
            invariant
                j <= function.arguments@.len(),
                args == function.arguments@,
                self.env() == old(self).env(),
                self.vars() == arguments_forgotten(end, args, j as nat),
            decreases function.arguments@.len() - j,
        {
            self.remove(&function.arguments[j].name);
            j += 1;
        }
        CompiledFunction { id: function.name.clone(), typ: function.typ.clone(), instructions }
    }

    fn compile_all(&mut self, exprs: &Vec<VmExpr>, count: usize, pop: bool, instructions: &mut Vec<
        Instruction,
    >)
        requires
            count <= exprs@.len(),
            compiled_all(
                old(self).env(),
                old(self).emitted(old(instructions)@),
                exprs@,
                count as nat,
                pop,
            ) is Some,
        ensures
            final(self).env() == old(self).env(),
            compiled_all(
                old(self).env(),
                old(self).emitted(old(instructions)@),
                exprs@,
                count as nat,
                pop,
            ) == Some(final(self).emitted(final(instructions)@)),
        decreases exprs@, 0nat,
    {
        let ghost start = self.emitted(instructions@);
        let mut i: usize = 0;
        while i < count
            invariant
                i <= count <= exprs@.len(),
                self.env() == old(self).env(),
                start == old(self).emitted(old(instructions)@),
                compiled_all(self.env(), start, exprs@, count as nat, pop) is Some,
                compiled_all(self.env(), start, exprs@, i as nat, pop) == Some(
                    self.emitted(instructions@),
                ),
            decreases count - i,
        {
            proof {
                compiled_all_before(
                    self.env(),
                    start,
                    exprs@,
                    (i + 1) as nat,
                    count as nat,
                    pop,
                );
                assert(decreases_to!(exprs@ => exprs@[i as int]));
            }
            self.compile(&exprs[i], instructions);
            if pop && !is_unit(&exprs[i].typ) {
                //Since this line is executed as a statement we need to remove
                //the value from the stack
                instructions.push(Instruction::Pop(1));
            }
            i += 1;
        }
    }

    /// Compiles `expr` to `instructions` behind those that are there.
    #[verifier::rlimit(30)]
    pub fn compile(&mut self, expr: &VmExpr, instructions: &mut Vec<Instruction>)
        requires
            compiled(old(self).env(), old(self).emitted(old(instructions)@), *expr) is Some,
        ensures
            final(self).env() == old(self).env(),
            compiled(old(self).env(), old(self).emitted(old(instructions)@), *expr) == Some(
                final(self).emitted(final(instructions)@),
            ),
        decreases expr, 0nat,
    {
        let ghost env = self.env();
        let ghost start = self.emitted(instructions@);
        match &expr.value {
            VmExprKind::Literal(lit) => match lit {
                VmLiteral::Integer(i) => instructions.push(Instruction::PushInt(*i)),
                VmLiteral::Float(f) => instructions.push(Instruction::PushFloat(*f)),
                VmLiteral::Bool(b) => instructions.push(
                    Instruction::PushInt(
                        if *b {
                            1
                        } else {
                            0
                        },
                    ),
                ),
                VmLiteral::String(_) => {},
            },
            VmExprKind::Identifier(id) => match self.find(&id.name) {
                Some(Variable::Stack(index)) => instructions.push(Instruction::Push(index)),
                Some(Variable::Global(index)) => instructions.push(Instruction::PushGlobal(index)),
                _ => {},
            },
            VmExprKind::IfElse(pred, if_true, if_false) => {
                self.compile(pred, instructions);
                let jump_index: usize = instructions.len();
                let ghost s1 = self.emitted(instructions@);
                instructions.push(Instruction::CJump(0));
                proof {
                    compiled_extends(env, s1.push(Instruction::CJump(0)), **if_false);
                }
                self.compile(if_false, instructions);
                let false_jump_index: usize = instructions.len();
                let ghost s2 = self.emitted(instructions@);
                instructions.push(Instruction::Jump(0));
                let target: usize = instructions.len();
                instructions[jump_index] = Instruction::CJump(target);
                let ghost s3 = self.emitted(instructions@);
                proof {
                    compiled_extends(env, s3, **if_true);
                }
                self.compile(if_true, instructions);
                let target: usize = instructions.len();
                instructions[false_jump_index] = Instruction::Jump(target);
            },
            VmExprKind::Block(exprs) => {
                if exprs.len() != 0 {
                    self.compile_all(exprs, exprs.len() - 1, true, instructions);
                    proof {
                        assert(decreases_to!(exprs@ => exprs@[exprs@.len() - 1]));
                    }
                    self.compile(&exprs[exprs.len() - 1], instructions);
                }
                let ghost s = self.emitted(instructions@);
                let stack_size: usize = self.stack.len();
                let mut i: usize = 0;
                while i < exprs.len()
                    invariant
                        i <= exprs@.len(),
                        self.env() == env,
                        self.emitted(instructions@) == forget_lets(s, exprs@, i as nat),
                    decreases exprs@.len() - i,
                {
                    match &exprs[i].value {
                        VmExprKind::Let(id, _) => {
                            self.remove(&id.name);
                        },
                        _ => {},
                    }
                    i += 1;
                }
                proof {
                    forget_lets_keeps_code(s, exprs@, exprs@.len());
                    assert(self.vars().len() == self.stack@.len());
                    assert(s.vars.len() == stack_size);
                }
                //If the stack has changed size during the block we need to adjust
                //it back to its initial size
                let diff_size: usize = stack_size - self.stack.len();
                if diff_size != 0 {
                    if is_unit(&expr.typ) {
                        instructions.push(Instruction::Pop(diff_size));
                    } else {
                        instructions.push(Instruction::Slide(diff_size));
                    }
                }
            },
            VmExprKind::BinOp(lhs, op, rhs) => {
                self.compile(lhs, instructions);
                self.compile(rhs, instructions);
                if let Some(instr) = find_operator(&lhs.typ, op) {
                    instructions.push(instr);
                }
            },
            VmExprKind::Let(id, value) => {
                self.compile(value, instructions);
                self.new_stack_var(&id.name);
                //unit expressions do not return a value so we need to add a dummy value
                //To make the stack correct
                if is_unit(&value.typ) {
                    instructions.push(Instruction::PushInt(0));
                }
            },
            VmExprKind::Call(func, args) => {
                if let VmExprKind::Identifier(id) = &func.value {
                    if let Some(Variable::Constructor(tag, num_args)) = self.find(&id.name) {
                        self.compile_all(args, args.len(), false, instructions);
                        instructions.push(Instruction::Construct(tag, num_args));
                        return ;
                    }
                }
                self.compile(func, instructions);
                self.compile_all(args, args.len(), false, instructions);
                instructions.push(Instruction::CallGlobal(args.len()));
            },
            VmExprKind::While(pred, body) => {
                //jump #test
                //#start:
                //[compile(expr)]
                //#test:
                //[compile(pred)]
                //cjump #start
                let pre_jump_index: usize = instructions.len();
                instructions.push(Instruction::Jump(0));
                proof {
                    compiled_extends(env, start.push(Instruction::Jump(0)), **body);
                }
                self.compile(body, instructions);
                let target: usize = instructions.len();
                instructions[pre_jump_index] = Instruction::Jump(target);
                self.compile(pred, instructions);
                instructions.push(Instruction::CJump(pre_jump_index + 1));
            },
            VmExprKind::Assign(lhs, rhs) => {
                self.compile(rhs, instructions);
                match &lhs.value {
                    VmExprKind::Identifier(id) => {
                        if let Some(Variable::Stack(i)) = self.find(&id.name) {
                            instructions.push(Instruction::Store(i));
                        }
                    },
                    VmExprKind::FieldAccess(owner, field) => {
                        self.compile(owner, instructions);
                        if let Some(i) = self.find_field_of(&owner.typ, &field.name) {
                            instructions.push(Instruction::SetField(i));
                        }
                    },
                    _ => {},
                }
            },
            VmExprKind::FieldAccess(owner, field) => {
                self.compile(owner, instructions);
                if let Some(i) = self.find_field_of(&owner.typ, &field.name) {
                    instructions.push(Instruction::GetField(i));
                }
            },
            VmExprKind::Match(value, alts) => {
                self.compile(value, instructions);
                if let VmType::Data(id) = &*value.typ {
                    let ghost s = self.emitted(instructions@);
                    let start_jumps = self.compile_tests(id, alts, instructions);
                    let ghost t = self.emitted(instructions@);
                    let ghost jumps = ints(start_jumps@);
                    proof {
                        tests_extend(env, s, id@, alts@, alts@.len());
                        assert forall|i: int| 0 <= i < start_jumps@.len() implies #[trigger]
                            start_jumps@[i] < instructions@.len() by {
                            assert(s.code.len() <= jumps[i] < t.code.len());
                        }
                    }
                    let end_jumps = self.compile_branches(alts, &start_jumps, instructions);
                    let ghost b = self.emitted(instructions@);
                    let ghost ends = ints(end_jumps@);
                    let target: usize = instructions.len();
                    proof {
                        branches_extend(
                            env,
                            s,
                            t,
                            alts@,
                            jumps,
                            count_branches(alts@.len(), jumps.len()),
                        );
                    }
                    let mut k: usize = 0;
                    while k < end_jumps.len()
                        invariant
                            k <= end_jumps@.len(),
                            self.env() == env,
                            ends == ints(end_jumps@),
                            extends(s, b),
                            within(ends, s, b),
                            self.emitted(instructions@) == joined(b, ends, k as nat, target),
                        decreases end_jumps@.len() - k,
                    {
                        proof {
                            joined_extends(s, b, ends, k as nat, target);
                            assert(ends[k as int] == end_jumps@[k as int]);
                        }
                        instructions[end_jumps[k]] = Instruction::Jump(target);
                        k += 1;
                    }
                }
            },
        }
    }

    fn compile_tests(&mut self, typename: &Symbol, alts: &Vec<VmAlternative>, instructions: &mut Vec<
        Instruction,
    >) -> (res: Vec<usize>)
        requires
            tests(
                old(self).env(),
                old(self).emitted(old(instructions)@),
                typename@,
                alts@,
                alts@.len(),
            ) is Some,
        ensures
            *final(self) == *old(self),
            tests(
                old(self).env(),
                old(self).emitted(old(instructions)@),
                typename@,
                alts@,
                alts@.len(),
            ) == Some((final(self).emitted(final(instructions)@), ints(res@))),
    {
        let ghost start = self.emitted(instructions@);
        let mut start_jumps: Vec<usize> = Vec::new();
        let mut i: usize = 0;
        assert(ints(start_jumps@) =~= Seq::<int>::empty());
        while i < alts.len()
            invariant
                i <= alts@.len(),
                *self == *old(self),
                start == old(self).emitted(old(instructions)@),
                tests(self.env(), start, typename@, alts@, alts@.len()) is Some,
                tests(self.env(), start, typename@, alts@, i as nat) == Some(
                    (self.emitted(instructions@), ints(start_jumps@)),
                ),
            decreases alts@.len() - i,
        {
            proof {
                tests_before(self.env(), start, typename@, alts@, (i + 1) as nat, alts@.len());
            }
            match &alts[i].pattern {
                VmPattern::ConstructorPattern(id, _) => {
                    if let Some(tag) = self.globals.find_tag(typename, &id.name) {
                        let ghost before = ints(start_jumps@);
                        instructions.push(Instruction::TestTag(tag));
                        start_jumps.push(instructions.len());
                        assert(ints(start_jumps@) =~= before.push(instructions@.len() as int));
                        instructions.push(Instruction::CJump(0));
                    }
                },
                VmPattern::IdentifierPattern(_) => {},
            }
            i += 1;
        }
        start_jumps
    }

    #[verifier::rlimit(30)]
    fn compile_branches(
        &mut self,
        alts: &Vec<VmAlternative>,
        start_jumps: &Vec<usize>,
        instructions: &mut Vec<Instruction>,
    ) -> (res: Vec<usize>)
        requires
            branches(
                old(self).env(),
                old(self).emitted(old(instructions)@),
                alts@,
                ints(start_jumps@),
                count_branches(alts@.len(), start_jumps@.len()),
            ) is Some,
            forall|i: int|
                0 <= i < start_jumps@.len() ==> #[trigger] start_jumps@[i] < old(
                    instructions,
                )@.len(),
        ensures
            final(self).env() == old(self).env(),
            branches(
                old(self).env(),
                old(self).emitted(old(instructions)@),
                alts@,
                ints(start_jumps@),
                count_branches(alts@.len(), start_jumps@.len()),
            ) == Some((final(self).emitted(final(instructions)@), ints(res@))),
        decreases alts@, 0nat,
    {
        let ghost env = self.env();
        let ghost start = self.emitted(instructions@);
        let ghost jumps = ints(start_jumps@);
        let ghost n = count_branches(alts@.len(), start_jumps@.len());
        let ghost base = Emitted { code: Seq::empty(), vars: start.vars };
        let mut end_jumps: Vec<usize> = Vec::new();
        let mut i: usize = 0;
        assert(ints(end_jumps@) =~= Seq::<int>::empty());
        assert(within(jumps, base, start)) by {
            assert forall|k: int| 0 <= k < jumps.len() implies base.code.len() <= #[trigger] jumps[k]
                < start.code.len() by {
                assert(start_jumps@[k] < instructions@.len());
            }
        }
        while i < alts.len() && i < start_jumps.len()
            invariant
                i <= n,
                n == count_branches(alts@.len(), start_jumps@.len()),
                self.env() == env,
                env == old(self).env(),
                start == old(self).emitted(old(instructions)@),
                jumps == ints(start_jumps@),
                base.code.len() == 0,
                extends(base, start),
                within(jumps, base, start),
                branches(env, start, alts@, jumps, n) is Some,
                branches(env, start, alts@, jumps, i as nat) == Some(
                    (self.emitted(instructions@), ints(end_jumps@)),
                ),
            decreases n - i,
        {
            proof {
                branches_before(env, start, alts@, jumps, (i + 1) as nat, n);
                branches_extend(env, base, start, alts@, jumps, i as nat);
                assert(jumps[i as int] == start_jumps@[i as int]);
                assert(decreases_to!(alts@ => alts@[i as int]));
            }
            let start_index: usize = start_jumps[i];
            let target: usize = instructions.len();
            instructions[start_index] = Instruction::CJump(target);
            match &alts[i].pattern {
                VmPattern::ConstructorPattern(_, args) => {
                    instructions.push(Instruction::Split);
                    let ghost split = self.emitted(instructions@);
                    let mut k: usize = 0;
                    while k < args.len()
                        invariant
                            k <= args@.len(),
                            self.env() == env,
                            declared(split, args@, args@.len()) is Some,
                            declared(split, args@, k as nat) == Some(self.emitted(instructions@)),
                        decreases args@.len() - k,
                    {
                        proof {
                            declared_before(split, args@, (k + 1) as nat, args@.len());
                        }
                        self.new_stack_var(&args[k].name);
                        k += 1;
                    }
                },
                VmPattern::IdentifierPattern(id) => {
                    self.new_stack_var(&id.name);
                },
            }
            self.compile(&alts[i].expression, instructions);
            let ghost before = ints(end_jumps@);
            end_jumps.push(instructions.len());
            assert(ints(end_jumps@) =~= before.push(instructions@.len() as int));
            instructions.push(Instruction::Jump(0));
            i += 1;
        }
        end_jumps
    }
}

pub open spec fn ints(positions: Seq<usize>) -> Seq<int> {
    positions.map_values(|p: usize| p as int)
}

/// A compiled function.
pub struct FunctionCode {
    pub id: Seq<char>,
    pub typ: Arc<VmType>,
    pub instructions: Seq<Instruction>,
}

pub open spec fn functions_view(functions: Seq<CompiledFunction>) -> Seq<FunctionCode> {
    functions.map_values(
        |f: CompiledFunction|
            FunctionCode { id: f.id@, typ: f.typ, instructions: f.instructions@ },
    )
}

/// The types that `module` declares, the structs first.
pub open spec fn type_infos(module: &VmModule) -> Seq<TypeInfo> {
    module.structs@.map_values(|s: VmStruct| TypeInfo::Struct(s.fields))
        + module.enums@.map_values(|e: VmEnum| TypeInfo::Enum(e.constructors))
}

/// Variables for the first `n` of `args`.
pub open spec fn arguments_declared(start: Emitted, args: Seq<VmField>, n: nat) -> Option<Emitted>
    decreases n,
{
    if n == 0 || n > args.len() {
        Some(start)
    } else {
        match arguments_declared(start, args, (n - 1) as nat) {
            None => None,
            Some(s) => s.declare(args[n - 1].name@),
        }
    }
}

/// The variables of the first `n` of `args` taken off the stack.
pub open spec fn arguments_forgotten(vars: Vars, args: Seq<VmField>, n: nat) -> Vars
    decreases n,
{
    if n == 0 || n > args.len() {
        vars
    } else {
        without(arguments_forgotten(vars, args, (n - 1) as nat), args[n - 1].name@)
    }
}

/// What `function` compiles to, and the variables that are left on the stack.
pub open spec fn function_compiled<E: CompilerEnv>(
    env: E,
    vars: Vars,
    function: VmFunction,
) -> Option<(FunctionCode, Vars)> {
    let args = function.arguments@;
    match arguments_declared(Emitted { code: Seq::empty(), vars }, args, args.len()) {
        None => None,
        Some(s) => match compiled(env, s, function.expression) {
            None => None,
            Some(s) => Some(
                (
                    FunctionCode {
                        id: function.name@,
                        typ: function.typ,
                        instructions: s.code,
                    },
                    arguments_forgotten(s.vars, args, args.len()),
                ),
            ),
        },
    }
}

/// What the first `n` of `functions` compile to, and the variables that are left on the stack.
pub open spec fn module_compiled<E: CompilerEnv>(
    env: E,
    vars: Vars,
    functions: Seq<VmFunction>,
    n: nat,
) -> Option<(Seq<FunctionCode>, Vars)>
    decreases n,
{
    if n == 0 || n > functions.len() {
        Some((Seq::empty(), vars))
    } else {
        match module_compiled(env, vars, functions, (n - 1) as nat) {
            None => None,
            Some((codes, vars)) => match function_compiled(env, vars, functions[n - 1]) {
                None => None,
                Some((code, vars)) => Some((codes.push(code), vars)),
            },
        }
    }
}

proof fn module_compiled_before<E: CompilerEnv>(
    env: E,
    vars: Vars,
    functions: Seq<VmFunction>,
    m: nat,
    n: nat,
)
    requires
        m <= n <= functions.len(),
        module_compiled(env, vars, functions, n) is Some,
    ensures
        module_compiled(env, vars, functions, m) is Some,
    decreases n,
{
    if m < n {
        module_compiled_before(env, vars, functions, m, (n - 1) as nat);
    }
}

proof fn arguments_declared_before(start: Emitted, args: Seq<VmField>, m: nat, n: nat)
    requires
        m <= n <= args.len(),
        arguments_declared(start, args, n) is Some,
    ensures
        arguments_declared(start, args, m) is Some,
    decreases n,
{
    if m < n {
        arguments_declared_before(start, args, m, (n - 1) as nat);
    }
}

proof fn declared_before(start: Emitted, idents: Seq<VmIdent>, m: nat, n: nat)
    requires
        m <= n <= idents.len(),
        declared(start, idents, n) is Some,
    ensures
        declared(start, idents, m) is Some,
    decreases n,
{
    if m < n {
        declared_before(start, idents, m, (n - 1) as nat);
    }
}

proof fn compiled_all_before<E: CompilerEnv>(
    env: E,
    start: Emitted,
    exprs: Seq<VmExpr>,
    m: nat,
    n: nat,
    pop: bool,
)
    requires
        m <= n <= exprs.len(),
        compiled_all(env, start, exprs, n, pop) is Some,
    ensures
        compiled_all(env, start, exprs, m, pop) is Some,
    decreases n,
{
    if m < n {
        compiled_all_before(env, start, exprs, m, (n - 1) as nat, pop);
    }
}

proof fn tests_before<E: CompilerEnv>(
    env: E,
    start: Emitted,
    typename: Seq<char>,
    alts: Seq<VmAlternative>,
    m: nat,
    n: nat,
)
    requires
        m <= n <= alts.len(),
        tests(env, start, typename, alts, n) is Some,
    ensures
        tests(env, start, typename, alts, m) is Some,
    decreases n,
{
    if m < n {
        tests_before(env, start, typename, alts, m, (n - 1) as nat);
    }
}

proof fn branches_before<E: CompilerEnv>(
    env: E,
    start: Emitted,
    alts: Seq<VmAlternative>,
    jumps: Seq<int>,
    m: nat,
    n: nat,
)
    requires
        m <= n <= alts.len(),
        n <= jumps.len(),
        branches(env, start, alts, jumps, n) is Some,
    ensures
        branches(env, start, alts, jumps, m) is Some,
    decreases n,
{
    if m < n {
        branches_before(env, start, alts, jumps, m, (n - 1) as nat);
    }
}

} // verus!
