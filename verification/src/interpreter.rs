use vstd::prelude::*;

use crate::ast::{
    block_model, block_text, duplicate_identifiers, expr_model, exprs_model, idents_model, join,
    lemma_exprs_model_index, lemma_stmts_model_index, opt_block_model, opt_expr_model,
    opt_stmt_box_model, same_identifiers, stmt_model, stmts_model, BlockModel, BlockStatement,
    ExprModel, Expression, IdentModel, Identifier, Program, Statement, StmtModel,
};
use crate::double::{
    double_add, double_difference, double_display, double_div, double_eq, double_equal,
    double_greater, double_gt, double_is_zero, double_less, double_lt, double_mul, double_negation,
    double_product, double_quotient, double_sub, double_sum, double_text,
};
use crate::parser::{digit_value, digits_valid, digits_value, int_literal_value};
use crate::token::TokenModel;
use vstd::string::StringExecFns;

verus! {

// ---------------------------------------------------------------------------
// Values
/// A value of the language.
///
/// A function value refers to the environment it was created in by that
/// environment's index in the interpreter's arena of environments. A float
/// value is the bit pattern of an IEEE double. Whether two values are
/// equal depends on the environments their functions refer to, so it is
/// decided with the interpreter's arena at hand (`values_equal`), not by
/// `PartialEq`.
#[derive(Debug)]
pub enum Object {
    Integer(i64),
    Float(u64),
    Boolean(bool),
    Null,
    String(String),
    Error(String),
    ReturnValue(Box<Object>),
    Function { parameters: Vec<Identifier>, body: BlockStatement, env: usize },
    Break,
    Continue,
}

/// The model of a value.
pub enum ObjModel {
    Integer(i64),
    Float(u64),
    Boolean(bool),
    Null,
    Str(Seq<char>),
    Error(Seq<char>),
    ReturnValue(Box<ObjModel>),
    Function { parameters: Seq<IdentModel>, body: BlockModel, env: nat },
    Break,
    Continue,
}

/// The model of a value.
pub open spec fn obj_model(o: Object) -> ObjModel
    decreases o,
{
    match o {
        Object::Integer(v) => ObjModel::Integer(v),
        Object::Float(b) => ObjModel::Float(b),
        Object::Boolean(b) => ObjModel::Boolean(b),
        Object::Null => ObjModel::Null,
        Object::String(s) => ObjModel::Str(s@),
        Object::Error(m) => ObjModel::Error(m@),
        Object::ReturnValue(b) => ObjModel::ReturnValue(Box::new(obj_model(*b))),
        Object::Function { parameters, body, env } => ObjModel::Function {
            parameters: idents_model(parameters@),
            body: block_model(body),
            env: env as nat,
        },
        Object::Break => ObjModel::Break,
        Object::Continue => ObjModel::Continue,
    }
}

impl View for Object {
    type V = ObjModel;

    open spec fn view(&self) -> ObjModel {
        obj_model(*self)
    }
}

/// The name of a value's kind.
pub open spec fn obj_kind(o: ObjModel) -> Seq<char> {
    match o {
        ObjModel::Integer(_) => "INTEGER"@,
        ObjModel::Float(_) => "FLOAT"@,
        ObjModel::Boolean(_) => "BOOLEAN"@,
        ObjModel::Null => "NULL"@,
        ObjModel::Str(_) => "STRING"@,
        ObjModel::Error(_) => "ERROR"@,
        ObjModel::ReturnValue(_) => "RETURN_VALUE"@,
        ObjModel::Function { .. } => "FUNCTION"@,
        ObjModel::Break => "BREAK"@,
        ObjModel::Continue => "CONTINUE"@,
    }
}

/// The position of a value's kind in the list of kinds: two values have
/// the same kind exactly when these are equal.
pub open spec fn kind_index(o: ObjModel) -> int {
    match o {
        ObjModel::Integer(_) => 0,
        ObjModel::Float(_) => 1,
        ObjModel::Boolean(_) => 2,
        ObjModel::Null => 3,
        ObjModel::Str(_) => 4,
        ObjModel::Error(_) => 5,
        ObjModel::ReturnValue(_) => 6,
        ObjModel::Function { .. } => 7,
        ObjModel::Break => 8,
        ObjModel::Continue => 9,
    }
}

// ---------------------------------------------------------------------------
// Decimal text
/// The character of a decimal digit.
pub open spec fn digit_char(d: int) -> char {
    if d == 0 {
        '0'
    } else if d == 1 {
        '1'
    } else if d == 2 {
        '2'
    } else if d == 3 {
        '3'
    } else if d == 4 {
        '4'
    } else if d == 5 {
        '5'
    } else if d == 6 {
        '6'
    } else if d == 7 {
        '7'
    } else if d == 8 {
        '8'
    } else {
        '9'
    }
}

/// The decimal digits of `n`, most significant first, without leading zeros.
pub open spec fn nat_text(n: nat) -> Seq<char>
    decreases n,
{
    if n < 10 {
        seq![digit_char(n as int)]
    } else {
        nat_text(n / 10).push(digit_char((n % 10) as int))
    }
}

/// The decimal text of an integer, with a leading `-` when it is negative.
pub open spec fn int_text(i: int) -> Seq<char> {
    if i < 0 {
        seq!['-'] + nat_text((-i) as nat)
    } else {
        nat_text(i as nat)
    }
}

fn digit_of(d: u64) -> (c: char)
    requires
        d < 10,
    ensures
        c == digit_char(d as int),
{
    match d {
        0 => '0',
        1 => '1',
        2 => '2',
        3 => '3',
        4 => '4',
        5 => '5',
        6 => '6',
        7 => '7',
        8 => '8',
        _ => '9',
    }
}

/// Appends the decimal digits of `n`.
fn push_digits(n: u64, s: &mut String)
    ensures
        final(s)@ == old(s)@ + nat_text(n as nat),
    decreases n,
{
    if n >= 10 {
        push_digits(n / 10, s);
    }
    s.push(digit_of(n % 10));
    assert(final(s)@ =~= old(s)@ + nat_text(n as nat));
}

/// The decimal text of a count.
fn count_text(n: usize) -> (s: String)
    ensures
        s@ == nat_text(n as nat),
{
    let mut s = String::new();
    push_digits(n as u64, &mut s);
    assert(s@ =~= nat_text(n as nat));
    s
}

/// The decimal text of an integer, as `{}` prints an `i64`.
fn integer_text(v: i64) -> (s: String)
    ensures
        s@ == int_text(v as int),
{
    let mut s = String::new();
    if v < 0 {
        s.push('-');
        let m: u64 = if v == i64::MIN {
            9223372036854775808u64
        } else {
            (-v) as u64
        };
        push_digits(m, &mut s);
        assert(s@ =~= int_text(v as int));
    } else {
        push_digits(v as u64, &mut s);
        assert(s@ =~= int_text(v as int));
    }
    s
}

// ---------------------------------------------------------------------------
// Printing values
/// The names of a list of parameters.
pub open spec fn param_names(ps: Seq<IdentModel>) -> Seq<Seq<char>> {
    ps.map_values(|p: IdentModel| p.value)
}

/// The text of a value, as the interpreter shows it.
pub open spec fn inspect_text(o: ObjModel) -> Seq<char>
    decreases o,
{
    match o {
        ObjModel::Integer(v) => int_text(v as int),
        ObjModel::Float(b) => double_text(b),
        ObjModel::Boolean(b) => if b {
            "true"@
        } else {
            "false"@
        },
        ObjModel::Null => "null"@,
        ObjModel::Str(s) => s,
        ObjModel::Error(m) => "ERROR: "@ + m,
        ObjModel::ReturnValue(b) => inspect_text(*b),
        ObjModel::Function { parameters, body, .. } => "func("@ + join(
            param_names(parameters),
            ", "@,
        ) + ") "@ + block_text(body),
        ObjModel::Break => "break"@,
        ObjModel::Continue => "continue"@,
    }
}

impl Object {
    /// The name of the value's kind.
    pub fn object_type(&self) -> (r: &'static str)
        ensures
            r@ == obj_kind(self@),
    {
        match self {
            Object::Integer(_) => "INTEGER",
            Object::Float(_) => "FLOAT",
            Object::Boolean(_) => "BOOLEAN",
            Object::Null => "NULL",
            Object::String(_) => "STRING",
            Object::Error(_) => "ERROR",
            Object::ReturnValue(_) => "RETURN_VALUE",
            Object::Function { .. } => "FUNCTION",
            Object::Break => "BREAK",
            Object::Continue => "CONTINUE",
        }
    }

    /// The text of the value.
    pub fn inspect(&self) -> (s: String)
        ensures
            s@ == inspect_text(self@),
        decreases self,
    {
        match self {
            Object::Integer(v) => integer_text(*v),
            Object::Float(b) => double_display(*b),
            Object::Boolean(b) => if *b {
                String::from_str("true")
            } else {
                String::from_str("false")
            },
            Object::Null => String::from_str("null"),
            Object::String(s) => s.clone(),
            Object::Error(m) => {
                let mut s = String::from_str("ERROR: ");
                s.append(m.as_str());
                s
            },
            Object::ReturnValue(b) => b.inspect(),
            Object::Function { parameters, body, .. } => {
                let mut s = String::from_str("func(");
                let ghost names = param_names(idents_model(parameters@));
                let mut i: usize = 0;
                while i < parameters.len()
                    invariant
                        0 <= i <= parameters@.len(),
                        names == param_names(idents_model(parameters@)),
                        s@ == "func("@ + join(names.take(i as int), ", "@),
                    decreases parameters@.len() - i,
                {
                    if i > 0 {
                        s.append(", ");
                    }
                    s.append(parameters[i].value.as_str());
                    proof {
                        assert(names.take(i + 1).drop_last() =~= names.take(i as int));
                    }
                    i = i + 1;
                }
                assert(names.take(parameters@.len() as int) =~= names);
                s.append(") ");
                let b = body.to_string();
                s.append(b.as_str());
                s
            },
            Object::Break => String::from_str("break"),
            Object::Continue => String::from_str("continue"),
        }
    }

    /// The position of the value's kind in the list of kinds.
    fn kind(&self) -> (k: u8)
        ensures
            k as int == kind_index(self@),
    {
        match self {
            Object::Integer(_) => 0,
            Object::Float(_) => 1,
            Object::Boolean(_) => 2,
            Object::Null => 3,
            Object::String(_) => 4,
            Object::Error(_) => 5,
            Object::ReturnValue(_) => 6,
            Object::Function { .. } => 7,
            Object::Break => 8,
            Object::Continue => 9,
        }
    }

    /// Whether the value is an error.
    pub fn is_error(&self) -> (r: bool)
        ensures
            r == (self@ is Error),
    {
        match self {
            Object::Error(_) => true,
            _ => false,
        }
    }

    /// A copy of the value.
    pub fn duplicate(&self) -> (r: Object)
        ensures
            r@ == self@,
        decreases self,
    {
        match self {
            Object::Integer(v) => Object::Integer(*v),
            Object::Float(b) => Object::Float(*b),
            Object::Boolean(b) => Object::Boolean(*b),
            Object::Null => Object::Null,
            Object::String(s) => Object::String(s.clone()),
            Object::Error(m) => Object::Error(m.clone()),
            Object::ReturnValue(b) => Object::ReturnValue(Box::new(b.duplicate())),
            Object::Function { parameters, body, env } => Object::Function {
                parameters: duplicate_identifiers(parameters),
                body: body.duplicate(),
                env: *env,
            },
            Object::Break => Object::Break,
            Object::Continue => Object::Continue,
        }
    }

    /// Whether the two values are alike: same kind and same contents, a
    /// function's environment taken by its index.
    pub fn same_as(&self, other: &Object) -> (r: bool)
        ensures
            r == (self@ == other@),
        decreases self,
    {
        match (self, other) {
            (Object::Integer(a), Object::Integer(b)) => *a == *b,
            (Object::Float(a), Object::Float(b)) => *a == *b,
            (Object::Boolean(a), Object::Boolean(b)) => *a == *b,
            (Object::Null, Object::Null) => true,
            (Object::String(a), Object::String(b)) => *a == *b,
            (Object::Error(a), Object::Error(b)) => *a == *b,
            (Object::ReturnValue(a), Object::ReturnValue(b)) => a.same_as(b),
            (
                Object::Function { parameters: p1, body: b1, env: e1 },
                Object::Function { parameters: p2, body: b2, env: e2 },
            ) => *e1 == *e2 && same_identifiers(p1, p2) && b1.same_as(b2),
            (Object::Break, Object::Break) => true,
            (Object::Continue, Object::Continue) => true,
            _ => false,
        }
    }
}

// ---------------------------------------------------------------------------
// Environments
/// The model of an environment: its bindings in the order they were first
/// made, and the index of the environment it is enclosed in, if any.
pub struct FrameModel {
    pub store: Seq<(Seq<char>, ObjModel)>,
    pub outer: Option<nat>,
}

/// A scope of bindings from names to values. Environments live in an arena
/// (a `Vec<Environment>`); an enclosed environment names its enclosing one by
/// its index there.
#[derive(Debug)]
pub struct Environment {
    store: Vec<(String, Object)>,
    outer: Option<usize>,
}

/// The models of a list of bindings.
pub open spec fn store_model(s: Seq<(String, Object)>) -> Seq<(Seq<char>, ObjModel)> {
    s.map_values(|p: (String, Object)| (p.0@, p.1@))
}

impl View for Environment {
    type V = FrameModel;

    closed spec fn view(&self) -> FrameModel {
        FrameModel {
            store: store_model(self.store@),
            outer: match self.outer {
                Some(k) => Some(k as nat),
                None => None,
            },
        }
    }
}

/// The models of an arena of environments.
pub open spec fn frames_model(v: Seq<Environment>) -> Seq<FrameModel> {
    v.map_values(|e: Environment| e@)
}

/// The model of an optional value.
pub open spec fn opt_obj_model(o: Option<Object>) -> Option<ObjModel> {
    match o {
        Some(v) => Some(v@),
        None => None,
    }
}

/// The first index, from `i` on, at which `name` is bound.
pub open spec fn position_from(s: Seq<(Seq<char>, ObjModel)>, name: Seq<char>, i: int) -> Option<int>
    decreases s.len() - i,
{
    if i < 0 || i >= s.len() {
        None
    } else if s[i].0 == name {
        Some(i)
    } else {
        position_from(s, name, i + 1)
    }
}

/// The index at which `name` is bound, if it is.
pub open spec fn position(s: Seq<(Seq<char>, ObjModel)>, name: Seq<char>) -> Option<int> {
    position_from(s, name, 0)
}

/// The value bound to `name`, if any.
pub open spec fn find_binding(s: Seq<(Seq<char>, ObjModel)>, name: Seq<char>) -> Option<ObjModel> {
    match position(s, name) {
        Some(i) => Some(s[i].1),
        None => None,
    }
}

/// The bindings after binding `name` to `v`: an existing binding of the name
/// is replaced in place, a new one goes last.
pub open spec fn bind(s: Seq<(Seq<char>, ObjModel)>, name: Seq<char>, v: ObjModel) -> Seq<
    (Seq<char>, ObjModel),
> {
    match position(s, name) {
        Some(i) => s.update(i, (name, v)),
        None => s.push((name, v)),
    }
}

/// The value of `name` seen from the environment at index `idx` of the arena:
/// its own binding, else the one seen from the environment it is enclosed
/// in. An enclosing index must be smaller than the enclosed one.
pub open spec fn chain_lookup(frames: Seq<FrameModel>, idx: nat, name: Seq<char>) -> Option<
    ObjModel,
>
    decreases idx,
{
    if idx >= frames.len() {
        None
    } else {
        match find_binding(frames[idx as int].store, name) {
            Some(v) => Some(v),
            None => match frames[idx as int].outer {
                Some(k) => if k < idx {
                    chain_lookup(frames, k, name)
                } else {
                    None
                },
                None => None,
            },
        }
    }
}

/// The value of `name` seen from the environment `f`, with `frames` the arena
/// its enclosing environments live in.
pub open spec fn frame_get(frames: Seq<FrameModel>, f: FrameModel, name: Seq<char>) -> Option<
    ObjModel,
> {
    match find_binding(f.store, name) {
        Some(v) => Some(v),
        None => match f.outer {
            Some(k) => chain_lookup(frames, k, name),
            None => None,
        },
    }
}

/// What `position_from` finds: the first binding of the name from `i` on.
pub proof fn lemma_position_from(s: Seq<(Seq<char>, ObjModel)>, name: Seq<char>, i: int)
    requires
        0 <= i,
    ensures
        match position_from(s, name, i) {
            Some(j) => i <= j < s.len() && s[j].0 == name && forall|k: int|
                i <= k < j ==> #[trigger] s[k].0 != name,
            None => forall|k: int| i <= k < s.len() ==> #[trigger] s[k].0 != name,
        },
    decreases s.len() - i,
{
    if i < s.len() && s[i].0 != name {
        lemma_position_from(s, name, i + 1);
    }
}

/// Two lists of bindings that bind the same names at the same indices find a
/// name at the same index.
proof fn lemma_position_same_names(
    s: Seq<(Seq<char>, ObjModel)>,
    t: Seq<(Seq<char>, ObjModel)>,
    name: Seq<char>,
)
    requires
        s.len() <= t.len(),
        forall|k: int| 0 <= k < s.len() ==> #[trigger] s[k].0 == t[k].0,
        forall|k: int| s.len() <= k < t.len() ==> #[trigger] t[k].0 != name,
    ensures
        position(s, name) == position(t, name),
{
    lemma_position_from(s, name, 0);
    lemma_position_from(t, name, 0);
    match position(s, name) {
        Some(j) => {
            assert(t[j].0 == name);
            match position(t, name) {
                Some(j2) => {
                    if j2 < j {
                        assert(s[j2].0 == t[j2].0);
                    }
                },
                None => {},
            }
        },
        None => {
            match position(t, name) {
                Some(j2) => {
                    assert(s[j2].0 == t[j2].0);
                },
                None => {},
            }
        },
    }
}

/// A value bound to a name is what that name is then found to be bound to.
pub proof fn law_find_after_bind(s: Seq<(Seq<char>, ObjModel)>, name: Seq<char>, v: ObjModel)
    ensures
        find_binding(bind(s, name, v), name) == Some(v),
{
    lemma_position_from(s, name, 0);
    let t = bind(s, name, v);
    match position(s, name) {
        Some(j) => {
            lemma_position_same_names(s, t, name);
        },
        None => {
            lemma_position_from(t, name, 0);
            assert(t[s.len() as int].0 == name);
        },
    }
}

/// Binding a name leaves what every other name is bound to unchanged.
pub proof fn law_bind_keeps_others(
    s: Seq<(Seq<char>, ObjModel)>,
    name: Seq<char>,
    v: ObjModel,
    other: Seq<char>,
)
    requires
        other != name,
    ensures
        find_binding(bind(s, name, v), other) == find_binding(s, other),
{
    lemma_position_from(s, name, 0);
    let t = bind(s, name, v);
    lemma_position_same_names(s, t, other);
    lemma_position_from(s, other, 0);
}

impl Environment {
    /// An empty environment, enclosed in none.
    pub fn new() -> (e: Environment)
        ensures
            e@ == (FrameModel { store: Seq::empty(), outer: None }),
    {
        let e = Environment { store: Vec::new(), outer: None };
        assert(e@.store =~= Seq::<(Seq<char>, ObjModel)>::empty());
        e
    }

    /// An empty environment enclosed in the one at index `outer`.
    pub fn new_enclosed(outer: usize) -> (e: Environment)
        ensures
            e@ == (FrameModel { store: Seq::empty(), outer: Some(outer as nat) }),
    {
        let e = Environment { store: Vec::new(), outer: Some(outer) };
        assert(e@.store =~= Seq::<(Seq<char>, ObjModel)>::empty());
        e
    }

    /// The index of `name` among the environment's own bindings.
    fn find(&self, name: &String) -> (r: Option<usize>)
        ensures
            match r {
                Some(i) => position(self@.store, name@) == Some(i as int) && (i as int)
                    < self.store@.len(),
                None => position(self@.store, name@) is None,
            },
    {
        let ghost s = self@.store;
        proof {
            lemma_position_from(s, name@, 0);
        }
        let mut i: usize = 0;
        while i < self.store.len()
            invariant
                0 <= i <= self.store@.len(),
                s == self@.store,
                s.len() == self.store@.len(),
                forall|k: int| 0 <= k < i ==> #[trigger] s[k].0 != name@,
            decreases self.store@.len() - i,
        {
            assert(s[i as int] == (self.store@[i as int].0@, self.store@[i as int].1@));
            if self.store[i].0 == *name {
                proof {
                    lemma_position_from(s, name@, 0);
                    match position(s, name@) {
                        Some(j) => {
                            if j > i {
                                assert(s[i as int].0 == name@);
                            }
                        },
                        None => {
                            assert(s[i as int].0 == name@);
                        },
                    }
                }
                return Some(i);
            }
            i = i + 1;
        }
        None
    }

    /// The value of `name`: the environment's own binding, else the one seen
    /// from its enclosing environment in `frames`.
    pub fn get(&self, name: &str, frames: &Vec<Environment>) -> (r: Option<Object>)
        ensures
            opt_obj_model(r) == frame_get(frames_model(frames@), self@, name@),
    {
        let key = String::from_str(name);
        match self.find(&key) {
            Some(i) => Some(self.store[i].1.duplicate()),
            None => match self.outer {
                Some(k) => chain_get(frames, k, &key),
                None => None,
            },
        }
    }

    /// Binds `name` to `val` in this environment and gives `val` back.
    pub fn set(&mut self, name: String, val: Object) -> (r: Object)
        ensures
            final(self)@ == (FrameModel {
                store: bind(old(self)@.store, name@, val@),
                outer: old(self)@.outer,
            }),
            r@ == val@,
    {
        let copy = val.duplicate();
        let ghost v = val@;
        match self.find(&name) {
            Some(i) => {
                self.store[i] = (name, val);
                assert(store_model(self.store@) =~= bind(store_model(old(self).store@), name@, v));
            },
            None => {
                self.store.push((name, val));
                assert(store_model(self.store@) =~= bind(store_model(old(self).store@), name@, v));
            },
        }
        copy
    }
}

/// The value of `name` seen from the environment at index `idx` of `frames`.
fn chain_get(frames: &Vec<Environment>, idx: usize, name: &String) -> (r: Option<Object>)
    ensures
        opt_obj_model(r) == chain_lookup(frames_model(frames@), idx as nat, name@),
{
    let ghost fm = frames_model(frames@);
    let mut cur = idx;
    loop
        invariant
            fm == frames_model(frames@),
            fm.len() == frames@.len(),
            chain_lookup(fm, idx as nat, name@) == chain_lookup(fm, cur as nat, name@),
        decreases cur,
    {
        if cur >= frames.len() {
            return None;
        }
        assert(fm[cur as int] == frames@[cur as int]@);
        match frames[cur].find(name) {
            Some(i) => {
                return Some(frames[cur].store[i].1.duplicate());
            },
            None => {},
        }
        match frames[cur].outer {
            Some(k) => {
                if k >= cur {
                    return None;
                }
                cur = k;
            },
            None => {
                return None;
            },
        }
    }
}

// ---------------------------------------------------------------------------
// Equality of values
/// How deeply `ReturnValue`s are nested in a value.
pub open spec fn obj_depth(o: ObjModel) -> nat
    decreases o,
{
    match o {
        ObjModel::ReturnValue(b) => 1 + obj_depth(*b),
        _ => 0,
    }
}

/// Whether the environments at indices `i` and `j` of the arena hold equal
/// bindings (the same names, bound to equal values) and are enclosed in
/// environments that are equal in the same way. An environment is equal to
/// itself. `fuel` bounds how deep the comparison goes; once it is spent the
/// environments count as equal (a comparison of environments that reach back
/// into themselves goes no deeper than the number of environments).
pub open spec fn env_eq(frames: Seq<FrameModel>, i: nat, j: nat, fuel: nat) -> bool
    decreases fuel, 0nat, 0nat,
{
    if i == j {
        true
    } else if fuel == 0 {
        true
    } else if i >= frames.len() || j >= frames.len() {
        false
    } else {
        stores_eq(frames, frames[i as int].store, frames[j as int].store, (fuel - 1) as nat)
            && match (frames[i as int].outer, frames[j as int].outer) {
            (None, None) => true,
            (Some(a), Some(b)) => env_eq(frames, a, b, (fuel - 1) as nat),
            _ => false,
        }
    }
}

/// Whether two values are equal: two functions when their parameters and
/// bodies are alike and their environments are equal (`env_eq`); any other
/// two values when they are alike.
pub open spec fn obj_eq(frames: Seq<FrameModel>, a: ObjModel, b: ObjModel, fuel: nat) -> bool
    decreases fuel, 1nat, obj_depth(a),
{
    match (a, b) {
        (
            ObjModel::Function { parameters: p1, body: b1, env: e1 },
            ObjModel::Function { parameters: p2, body: b2, env: e2 },
        ) => p1 == p2 && b1 == b2 && env_eq(frames, e1, e2, fuel),
        (ObjModel::ReturnValue(x), ObjModel::ReturnValue(y)) => obj_eq(frames, *x, *y, fuel),
        _ => a == b,
    }
}

/// Whether the list of bindings `t` binds the name of `p` to a value equal
/// to that of `p`.
pub open spec fn binding_matches(
    frames: Seq<FrameModel>,
    p: (Seq<char>, ObjModel),
    t: Seq<(Seq<char>, ObjModel)>,
    fuel: nat,
) -> bool
    decreases fuel, 2nat, 0nat,
{
    match find_binding(t, p.0) {
        Some(v) => obj_eq(frames, p.1, v, fuel),
        None => false,
    }
}

/// Whether `t` binds the names of the bindings of `s` from the `k`-th on to
/// values equal to theirs.
pub open spec fn bindings_match_from(
    frames: Seq<FrameModel>,
    s: Seq<(Seq<char>, ObjModel)>,
    t: Seq<(Seq<char>, ObjModel)>,
    k: int,
    fuel: nat,
) -> bool
    decreases fuel, 3nat, s.len() - k,
{
    if k < 0 || k >= s.len() {
        true
    } else {
        binding_matches(frames, s[k], t, fuel) && bindings_match_from(frames, s, t, k + 1, fuel)
    }
}

/// Whether two lists of bindings bind the same names to equal values.
pub open spec fn stores_eq(
    frames: Seq<FrameModel>,
    s: Seq<(Seq<char>, ObjModel)>,
    t: Seq<(Seq<char>, ObjModel)>,
    fuel: nat,
) -> bool
    decreases fuel, 4nat, 0nat,
{
    s.len() == t.len() && bindings_match_from(frames, s, t, 0, fuel)
}

/// `==` on values, in an interpreter whose arena is `frames`.
pub open spec fn values_equal(frames: Seq<FrameModel>, a: ObjModel, b: ObjModel) -> bool {
    obj_eq(frames, a, b, frames.len())
}

fn env_equal(frames: &Vec<Environment>, i: usize, j: usize, fuel: usize) -> (r: bool)
    ensures
        r == env_eq(frames_model(frames@), i as nat, j as nat, fuel as nat),
    decreases fuel, 0nat, 0nat,
{
    if i == j || fuel == 0 {
        return true;
    }
    if i >= frames.len() || j >= frames.len() {
        return false;
    }
    let ghost fm = frames_model(frames@);
    assert(fm[i as int] == frames@[i as int]@);
    assert(fm[j as int] == frames@[j as int]@);
    if !stores_equal(frames, i, j, fuel - 1) {
        return false;
    }
    match (frames[i].outer, frames[j].outer) {
        (None, None) => true,
        (Some(a), Some(b)) => env_equal(frames, a, b, fuel - 1),
        _ => false,
    }
}

fn objects_equal(frames: &Vec<Environment>, a: &Object, b: &Object, fuel: usize) -> (r: bool)
    ensures
        r == obj_eq(frames_model(frames@), a@, b@, fuel as nat),
    decreases fuel, 1nat, obj_depth(a@),
{
    match (a, b) {
        (
            Object::Function { parameters: p1, body: b1, env: e1 },
            Object::Function { parameters: p2, body: b2, env: e2 },
        ) => same_identifiers(p1, p2) && b1.same_as(b2) && env_equal(frames, *e1, *e2, fuel),
        (Object::ReturnValue(x), Object::ReturnValue(y)) => objects_equal(frames, x, y, fuel),
        _ => a.same_as(b),
    }
}

/// Whether the environments at `i` and `j` bind the same names to equal
/// values.
fn stores_equal(frames: &Vec<Environment>, i: usize, j: usize, fuel: usize) -> (r: bool)
    requires
        i < frames@.len(),
        j < frames@.len(),
    ensures
        r == stores_eq(
            frames_model(frames@),
            frames_model(frames@)[i as int].store,
            frames_model(frames@)[j as int].store,
            fuel as nat,
        ),
    decreases fuel, 4nat, 0nat,
{
    let ghost fm = frames_model(frames@);
    let ghost s = fm[i as int].store;
    let ghost t = fm[j as int].store;
    assert(fm[i as int] == frames@[i as int]@);
    assert(fm[j as int] == frames@[j as int]@);
    if frames[i].store.len() != frames[j].store.len() {
        return false;
    }
    let mut k: usize = 0;
    while k < frames[i].store.len()
        invariant
            i < frames@.len(),
            j < frames@.len(),
            fm == frames_model(frames@),
            s == fm[i as int].store,
            t == fm[j as int].store,
            s == frames@[i as int]@.store,
            t == frames@[j as int]@.store,
            s.len() == frames@[i as int].store@.len(),
            s.len() == t.len(),
            0 <= k <= s.len(),
            bindings_match_from(fm, s, t, 0, fuel as nat) == bindings_match_from(
                fm,
                s,
                t,
                k as int,
                fuel as nat,
            ),
        decreases s.len() - k,
    {
        assert(s[k as int] == (frames@[i as int].store@[k as int].0@, frames@[i as int].store@[k as int].1@));
        let matched = match frames[j].find(&frames[i].store[k].0) {
            Some(p) => {
                assert(t[p as int] == (
                    frames@[j as int].store@[p as int].0@,
                    frames@[j as int].store@[p as int].1@,
                ));
                objects_equal(frames, &frames[i].store[k].1, &frames[j].store[p].1, fuel)
            },
            None => false,
        };
        assert(matched == binding_matches(fm, s[k as int], t, fuel as nat));
        assert(bindings_match_from(fm, s, t, k as int, fuel as nat) == (matched
            && bindings_match_from(fm, s, t, k + 1, fuel as nat)));
        if !matched {
            return false;
        }
        k = k + 1;
    }
    true
}

/// `==` on values, in an interpreter whose arena is `frames`.
fn values_are_equal(frames: &Vec<Environment>, a: &Object, b: &Object) -> (r: bool)
    ensures
        r == values_equal(frames_model(frames@), a@, b@),
{
    objects_equal(frames, a, b, frames.len())
}

// ---------------------------------------------------------------------------
// Operators
/// Whether a value counts as true in a condition: everything but `null` and
/// `false`.
pub open spec fn truthy(o: ObjModel) -> bool {
    match o {
        ObjModel::Null => false,
        ObjModel::Boolean(b) => b,
        _ => true,
    }
}

/// The message of an operator applied to values of kinds it does not take.
pub open spec fn infix_msg(head: Seq<char>, l: Seq<char>, op: Seq<char>, r: Seq<char>) -> Seq<char> {
    head + l + " "@ + op + " "@ + r
}

/// `!v`.
pub open spec fn bang(o: ObjModel) -> ObjModel {
    match o {
        ObjModel::Boolean(b) => ObjModel::Boolean(!b),
        ObjModel::Null => ObjModel::Boolean(true),
        _ => ObjModel::Boolean(false),
    }
}

/// `-v`. Integer negation wraps: the negation of the least `i64` is itself.
pub open spec fn minus(o: ObjModel) -> ObjModel {
    match o {
        ObjModel::Integer(v) => ObjModel::Integer(vstd::wrapping::i64_specs::wrapping_sub(0, v)),
        ObjModel::Float(b) => ObjModel::Float(double_negation(b)),
        _ => ObjModel::Error("unknown operator: -"@ + obj_kind(o)),
    }
}

/// A prefix operator applied to a value.
pub open spec fn prefix(op: Seq<char>, r: ObjModel) -> ObjModel {
    if op == "!"@ {
        bang(r)
    } else if op == "-"@ {
        minus(r)
    } else {
        ObjModel::Error("unknown operator: "@ + op + obj_kind(r))
    }
}

/// The quotient of `a` by `b` rounded toward zero.
pub open spec fn trunc_div(a: int, b: int) -> int {
    if a >= 0 {
        if b > 0 {
            a / b
        } else {
            -(a / -b)
        }
    } else {
        if b > 0 {
            -((-a) / b)
        } else {
            (-a) / (-b)
        }
    }
}

/// `a / b` on `i64` for `b != 0`, rounded toward zero; the one quotient out
/// of range, the least `i64` divided by `-1`, wraps to the least `i64`.
pub open spec fn quotient(a: i64, b: i64) -> i64 {
    if a == i64::MIN && b == -1 {
        i64::MIN
    } else {
        trunc_div(a as int, b as int) as i64
    }
}

/// An infix operator applied to two integers. `+`, `-` and `*` wrap.
pub open spec fn int_infix(op: Seq<char>, a: i64, b: i64) -> ObjModel {
    if op == "+"@ {
        ObjModel::Integer(vstd::wrapping::i64_specs::wrapping_add(a, b))
    } else if op == "-"@ {
        ObjModel::Integer(vstd::wrapping::i64_specs::wrapping_sub(a, b))
    } else if op == "*"@ {
        ObjModel::Integer(vstd::wrapping::i64_specs::wrapping_mul(a, b))
    } else if op == "/"@ {
        if b == 0 {
            ObjModel::Error("division by zero"@)
        } else {
            ObjModel::Integer(quotient(a, b))
        }
    } else if op == "<"@ {
        ObjModel::Boolean(a < b)
    } else if op == ">"@ {
        ObjModel::Boolean(a > b)
    } else if op == "=="@ {
        ObjModel::Boolean(a == b)
    } else if op == "!="@ {
        ObjModel::Boolean(a != b)
    } else {
        ObjModel::Error(infix_msg("unknown operator: "@, "INTEGER"@, op, "INTEGER"@))
    }
}

/// An infix operator applied to two doubles.
pub open spec fn float_infix(op: Seq<char>, a: u64, b: u64) -> ObjModel {
    if op == "+"@ {
        ObjModel::Float(double_sum(a, b))
    } else if op == "-"@ {
        ObjModel::Float(double_difference(a, b))
    } else if op == "*"@ {
        ObjModel::Float(double_product(a, b))
    } else if op == "/"@ {
        if double_is_zero(b) {
            ObjModel::Error("division by zero"@)
        } else {
            ObjModel::Float(double_quotient(a, b))
        }
    } else if op == "<"@ {
        ObjModel::Boolean(double_less(a, b))
    } else if op == ">"@ {
        ObjModel::Boolean(double_greater(a, b))
    } else if op == "=="@ {
        ObjModel::Boolean(double_equal(a, b))
    } else if op == "!="@ {
        ObjModel::Boolean(!double_equal(a, b))
    } else {
        ObjModel::Error(infix_msg("unknown operator: "@, "FLOAT"@, op, "FLOAT"@))
    }
}

/// An infix operator applied to two strings.
pub open spec fn str_infix(op: Seq<char>, a: Seq<char>, b: Seq<char>) -> ObjModel {
    if op == "+"@ {
        ObjModel::Str(a + b)
    } else if op == "=="@ {
        ObjModel::Boolean(a == b)
    } else if op == "!="@ {
        ObjModel::Boolean(a != b)
    } else {
        ObjModel::Error(infix_msg("unknown operator: "@, "STRING"@, op, "STRING"@))
    }
}

/// An infix operator applied to two values, in an interpreter whose arena
/// is `frames`.
#[verifier::opaque]
pub open spec fn infix(frames: Seq<FrameModel>, op: Seq<char>, l: ObjModel, r: ObjModel) -> ObjModel {
    match (l, r) {
        (ObjModel::Integer(a), ObjModel::Integer(b)) => int_infix(op, a, b),
        (ObjModel::Float(a), ObjModel::Float(b)) => float_infix(op, a, b),
        (ObjModel::Str(a), ObjModel::Str(b)) => str_infix(op, a, b),
        _ => if op == "=="@ {
            ObjModel::Boolean(values_equal(frames, l, r))
        } else if op == "!="@ {
            ObjModel::Boolean(!values_equal(frames, l, r))
        } else if kind_index(l) != kind_index(r) {
            ObjModel::Error(infix_msg("type mismatch: "@, obj_kind(l), op, obj_kind(r)))
        } else {
            ObjModel::Error(infix_msg("unknown operator: "@, obj_kind(l), op, obj_kind(r)))
        },
    }
}

// ---------------------------------------------------------------------------
// Evaluation
/// The model of the interpreter: its arena of environments, the index of the
/// current environment there, how many evaluation steps it may still take,
/// and whether a function value was made since the current scope began.
pub struct IState {
    pub frames: Seq<FrameModel>,
    pub env: nat,
    pub steps: u64,
    pub captured: bool,
}

/// The current environment is in the arena.
pub open spec fn state_ok(st: IState) -> bool {
    st.env < st.frames.len()
}

/// The state after one evaluation step.
pub open spec fn tick(st: IState) -> IState {
    IState { steps: (st.steps - 1) as u64, ..st }
}

/// What evaluation gives once its steps are used up.
pub open spec fn step_error() -> ObjModel {
    ObjModel::Error("evaluation step limit reached"@)
}

/// The value of `name` in the current environment.
pub open spec fn lookup(st: IState, name: Seq<char>) -> Option<ObjModel> {
    chain_lookup(st.frames, st.env, name)
}

/// The state after binding `name` to `v` in the current environment.
pub open spec fn set_var(st: IState, name: Seq<char>, v: ObjModel) -> IState {
    if st.env < st.frames.len() {
        IState {
            frames: st.frames.update(
                st.env as int,
                FrameModel {
                    store: bind(st.frames[st.env as int].store, name, v),
                    outer: st.frames[st.env as int].outer,
                },
            ),
            ..st
        }
    } else {
        st
    }
}

/// The state with a new environment, enclosed in the one at `outer` and
/// holding `store`, made current; a new scope has made no function value.
pub open spec fn enter(st: IState, store: Seq<(Seq<char>, ObjModel)>, outer: nat) -> IState {
    IState {
        frames: st.frames.push(FrameModel { store, outer: Some(outer) }),
        env: st.frames.len(),
        steps: st.steps,
        captured: false,
    }
}

/// The state after a scope ends in `inner`, the scope having been entered
/// with `len` environments in the arena, `env` current and `captured` set as
/// given: `env` is current again, and the environments made for the scope are
/// dropped unless a function value made in it may refer to them.
pub open spec fn leave(len: nat, env: nat, captured: bool, inner: IState) -> IState {
    IState {
        frames: if inner.captured {
            inner.frames
        } else {
            inner.frames.take(len as int)
        },
        env,
        steps: inner.steps,
        captured: captured || inner.captured,
    }
}

/// The bindings of the first `n` parameters to the first `n` arguments.
pub open spec fn bind_params(ps: Seq<IdentModel>, args: Seq<ObjModel>, n: nat) -> Seq<
    (Seq<char>, ObjModel),
>
    decreases n,
{
    if n == 0 {
        Seq::empty()
    } else {
        bind(bind_params(ps, args, (n - 1) as nat), ps[n - 1].value, args[n - 1])
    }
}

/// The value of a call whose body gave `r`: a returned value is unwrapped.
pub open spec fn unwrap_return(r: ObjModel) -> ObjModel {
    match r {
        ObjModel::ReturnValue(v) => *v,
        _ => r,
    }
}

/// Whether a statement's value ends the block it is in.
pub open spec fn ends_block(r: ObjModel) -> bool {
    r is Error || r is ReturnValue || r is Break || r is Continue
}

/// The message of a call with the wrong number of arguments.
pub open spec fn arity_msg(got: nat, want: nat) -> Seq<char> {
    "wrong number of arguments. got="@ + nat_text(got) + ", want="@ + nat_text(want)
}

/// Evaluates an expression: its value and the state after it.
pub open spec fn eval_expr(st: IState, e: ExprModel) -> (ObjModel, IState)
    decreases st.steps, 0int, 0int,
{
    if st.steps == 0 {
        (step_error(), st)
    } else {
        let s0 = tick(st);
        match e {
            ExprModel::Ident(i) => (
                match lookup(s0, i.value) {
                    Some(v) => v,
                    None => ObjModel::Error("identifier not found: "@ + i.value),
                },
                s0,
            ),
            ExprModel::Int { value, .. } => (ObjModel::Integer(value), s0),
            ExprModel::Float { value, .. } => (ObjModel::Float(value), s0),
            ExprModel::Str { value, .. } => (ObjModel::Str(value), s0),
            ExprModel::Bool { value, .. } => (ObjModel::Boolean(value), s0),
            ExprModel::Prefix { operator, right, .. } => {
                let (r, s1) = eval_expr(s0, *right);
                if r is Error {
                    (r, s1)
                } else {
                    (prefix(operator, r), s1)
                }
            },
            ExprModel::Infix { left, operator, right, .. } => {
                let (l, s1) = eval_expr(s0, *left);
                if l is Error {
                    (l, s1)
                } else if s1.steps > s0.steps {
                    (l, s1)
                } else {
                    let (r, s2) = eval_expr(s1, *right);
                    if r is Error {
                        (r, s2)
                    } else {
                        (infix(s2.frames, operator, l, r), s2)
                    }
                }
            },
            ExprModel::Function { parameters, body, .. } => (
                ObjModel::Function { parameters, body, env: s0.env },
                IState { captured: true, ..s0 },
            ),
            ExprModel::Call { function, arguments, .. } => {
                let (f, s1) = eval_expr(s0, *function);
                if f is Error {
                    (f, s1)
                } else if s1.steps > s0.steps {
                    (f, s1)
                } else {
                    let (args, s2) = eval_args(s1, arguments, 0, Seq::empty());
                    if args.len() == 1 && args[0] is Error {
                        (args[0], s2)
                    } else if s2.steps > s1.steps {
                        (f, s2)
                    } else {
                        apply_fn(s2, f, args)
                    }
                }
            },
        }
    }
}

/// Evaluates the arguments from the `i`-th on, after the values `acc`: all
/// their values, or the first error alone.
pub open spec fn eval_args(st: IState, args: Seq<ExprModel>, i: int, acc: Seq<ObjModel>) -> (
    Seq<ObjModel>,
    IState,
)
    decreases st.steps, 1int, args.len() - i,
{
    if i < 0 || i >= args.len() {
        (acc, st)
    } else {
        let (v, s1) = eval_expr(st, args[i]);
        if v is Error {
            (seq![v], s1)
        } else if s1.steps > st.steps {
            (acc, s1)
        } else {
            eval_args(s1, args, i + 1, acc.push(v))
        }
    }
}

/// Calls a function value with argument values.
pub open spec fn apply_fn(st: IState, f: ObjModel, args: Seq<ObjModel>) -> (ObjModel, IState)
    decreases st.steps, 3int, 0int,
{
    match f {
        ObjModel::Function { parameters, body, env } => if parameters.len() != args.len() {
            (ObjModel::Error(arity_msg(args.len(), parameters.len())), st)
        } else {
            let s1 = enter(st, bind_params(parameters, args, parameters.len()), env);
            let (r, s2) = eval_block(s1, body);
            (unwrap_return(r), leave(st.frames.len(), st.env, st.captured, s2))
        },
        _ => (ObjModel::Error("not a function: "@ + obj_kind(f)), st),
    }
}

/// Evaluates a block in a new environment enclosed in the current one.
pub open spec fn eval_block(st: IState, b: BlockModel) -> (ObjModel, IState)
    decreases st.steps, 2int, 0int,
{
    let s1 = enter(st, Seq::empty(), st.env);
    let (r, s2) = eval_block_loop(s1, b.statements, 0, ObjModel::Null);
    (r, leave(st.frames.len(), st.env, st.captured, s2))
}

/// Evaluates the statements of a block from the `i`-th on, `last` being the
/// value of the one before.
pub open spec fn eval_block_loop(st: IState, stmts: Seq<StmtModel>, i: int, last: ObjModel) -> (
    ObjModel,
    IState,
)
    decreases st.steps, 1int, stmts.len() - i,
{
    if i < 0 || i >= stmts.len() {
        (last, st)
    } else {
        let (r, s1) = eval_stmt(st, stmts[i]);
        if ends_block(r) {
            (r, s1)
        } else if s1.steps > st.steps {
            (r, s1)
        } else {
            eval_block_loop(s1, stmts, i + 1, r)
        }
    }
}

/// Evaluates a statement: its value and the state after it.
pub open spec fn eval_stmt(st: IState, s: StmtModel) -> (ObjModel, IState)
    decreases st.steps, 0int, 0int,
{
    if st.steps == 0 {
        (step_error(), st)
    } else {
        let s0 = tick(st);
        match s {
            StmtModel::Expr { expression, .. } => eval_expr(s0, expression),
            StmtModel::Let { name, value, .. } => {
                let (v, s1) = eval_expr(s0, value);
                if v is Error {
                    (v, s1)
                } else {
                    (v, set_var(s1, name.value, v))
                }
            },
            StmtModel::Return { return_value, .. } => {
                let (v, s1) = eval_expr(s0, return_value);
                if v is Error {
                    (v, s1)
                } else {
                    (ObjModel::ReturnValue(Box::new(v)), s1)
                }
            },
            StmtModel::If { condition, consequence, alternative, .. } => eval_if(
                s0,
                condition,
                consequence,
                alternative,
            ),
            StmtModel::While { condition, body, .. } => eval_while(
                s0,
                condition,
                body,
                ObjModel::Null,
            ),
            StmtModel::For { initializer, condition, update, body, .. } => eval_for(
                s0,
                initializer,
                condition,
                update,
                body,
            ),
            StmtModel::Break { .. } => (ObjModel::Break, s0),
            StmtModel::Continue { .. } => (ObjModel::Continue, s0),
            StmtModel::Block(b) => eval_block(s0, b),
        }
    }
}

/// Evaluates an `if` statement.
pub open spec fn eval_if(st: IState, c: ExprModel, cons: BlockModel, alt: Option<BlockModel>) -> (
    ObjModel,
    IState,
)
    decreases st.steps, 3int, 0int,
{
    let (v, s1) = eval_expr(st, c);
    if v is Error {
        (v, s1)
    } else if s1.steps > st.steps {
        (v, s1)
    } else if truthy(v) {
        eval_block(s1, cons)
    } else {
        match alt {
            Some(a) => eval_block(s1, a),
            None => (ObjModel::Null, s1),
        }
    }
}

/// Evaluates a `while` loop from its next round on, `last` being the value
/// of the body in the round before. Each round takes a step.
pub open spec fn eval_while(st: IState, c: ExprModel, body: BlockModel, last: ObjModel) -> (
    ObjModel,
    IState,
)
    decreases st.steps, 3int, 0int,
{
    if st.steps == 0 {
        (step_error(), st)
    } else {
        let s0 = tick(st);
        let (v, s1) = eval_expr(s0, c);
        if v is Error {
            (v, s1)
        } else if !truthy(v) {
            (last, s1)
        } else if s1.steps > s0.steps {
            (last, s1)
        } else {
            let (r, s2) = eval_block(s1, body);
            if r is Error || r is Break {
                (r, s2)
            } else if s2.steps > s1.steps {
                (r, s2)
            } else {
                eval_while(s2, c, body, r)
            }
        }
    }
}

/// Evaluates a `for` loop: its initializer, then its rounds.
pub open spec fn eval_for(
    st: IState,
    init: Option<Box<StmtModel>>,
    c: Option<ExprModel>,
    u: Option<Box<StmtModel>>,
    body: BlockModel,
) -> (ObjModel, IState)
    decreases st.steps, 4int, 0int,
{
    match init {
        Some(i) => {
            let (v, s1) = eval_stmt(st, *i);
            if v is Error {
                (v, s1)
            } else if s1.steps > st.steps {
                (v, s1)
            } else {
                eval_for_loop(s1, c, u, body, ObjModel::Null)
            }
        },
        None => eval_for_loop(st, c, u, body, ObjModel::Null),
    }
}

/// Evaluates a `for` loop from its next round on, `last` being the value of
/// the body in the round before. Each round takes a step; a missing
/// condition holds.
pub open spec fn eval_for_loop(
    st: IState,
    c: Option<ExprModel>,
    u: Option<Box<StmtModel>>,
    body: BlockModel,
    last: ObjModel,
) -> (ObjModel, IState)
    decreases st.steps, 3int, 0int,
{
    if st.steps == 0 {
        (step_error(), st)
    } else {
        let s0 = tick(st);
        let (v, s1) = match c {
            Some(e) => eval_expr(s0, e),
            None => (ObjModel::Boolean(true), s0),
        };
        if v is Error {
            (v, s1)
        } else if !truthy(v) {
            (last, s1)
        } else if s1.steps > s0.steps {
            (last, s1)
        } else {
            let (r, s2) = eval_block(s1, body);
            if r is Error || r is Break {
                (r, s2)
            } else if s2.steps > s1.steps {
                (r, s2)
            } else {
                match u {
                    Some(us) => {
                        let (w, s3) = eval_stmt(s2, *us);
                        if w is Error {
                            (w, s3)
                        } else if s3.steps > s2.steps {
                            (r, s3)
                        } else {
                            eval_for_loop(s3, c, u, body, r)
                        }
                    },
                    None => eval_for_loop(s2, c, u, body, r),
                }
            }
        }
    }
}

/// Evaluates the statements of a program from the `i`-th on, `last` being
/// the value of the one before: a returned value or an error ends it.
pub open spec fn eval_program_loop(st: IState, stmts: Seq<StmtModel>, i: int, last: ObjModel) -> (
    ObjModel,
    IState,
)
    decreases stmts.len() - i,
{
    if i < 0 || i >= stmts.len() {
        (last, st)
    } else {
        let (r, s1) = eval_stmt(st, stmts[i]);
        match r {
            ObjModel::ReturnValue(v) => (*v, s1),
            ObjModel::Error(_) => (r, s1),
            _ => eval_program_loop(s1, stmts, i + 1, r),
        }
    }
}

/// Evaluates a program.
pub open spec fn eval_program(st: IState, stmts: Seq<StmtModel>) -> (ObjModel, IState) {
    eval_program_loop(st, stmts, 0, ObjModel::Null)
}

// ---------------------------------------------------------------------------
// Operators, executed
/// Whether the operator is the given one.
fn op_is(op: &String, lit: &str) -> (r: bool)
    ensures
        r == (op@ == lit@),
{
    let l = String::from_str(lit);
    *op == l
}

/// `head`, the kind `l`, a space, `op`, a space, the kind `r`.
fn infix_message(head: &str, l: &str, op: &String, r: &str) -> (s: String)
    ensures
        s@ == infix_msg(head@, l@, op@, r@),
{
    let mut s = String::from_str(head);
    s.append(l);
    s.append(" ");
    s.append(op.as_str());
    s.append(" ");
    s.append(r);
    s
}

/// Whether a value counts as true in a condition.
fn is_truthy(obj: &Object) -> (r: bool)
    ensures
        r == truthy(obj@),
{
    match obj {
        Object::Null => false,
        Object::Boolean(b) => *b,
        _ => true,
    }
}

fn eval_bang_operator_expression(right: Object) -> (r: Object)
    ensures
        r@ == bang(right@),
{
    match right {
        Object::Boolean(b) => Object::Boolean(!b),
        Object::Null => Object::Boolean(true),
        _ => Object::Boolean(false),
    }
}

fn eval_minus_prefix_operator_expression(right: Object) -> (r: Object)
    ensures
        r@ == minus(right@),
{
    match right {
        Object::Integer(v) => Object::Integer(0i64.wrapping_sub(v)),
        Object::Float(b) => Object::Float(b ^ 0x8000_0000_0000_0000u64),
        _ => {
            let mut m = String::from_str("unknown operator: -");
            m.append(right.object_type());
            Object::Error(m)
        },
    }
}

fn eval_prefix_expression(operator: &String, right: Object) -> (r: Object)
    ensures
        r@ == prefix(operator@, right@),
{
    if op_is(operator, "!") {
        eval_bang_operator_expression(right)
    } else if op_is(operator, "-") {
        eval_minus_prefix_operator_expression(right)
    } else {
        let mut m = String::from_str("unknown operator: ");
        m.append(operator.as_str());
        m.append(right.object_type());
        Object::Error(m)
    }
}

/// `a / b` for `b != 0`, rounded toward zero, wrapping on overflow.
fn integer_quotient(a: i64, b: i64) -> (q: i64)
    requires
        b != 0,
    ensures
        q == quotient(a, b),
{
    if a == i64::MIN && b == -1 {
        return i64::MIN;
    }
    proof {
        lemma_quotient_in_range(a, b);
    }
    match a.checked_div(b) {
        Some(q) => q,
        None => i64::MIN,
    }
}

/// Division of naturals shrinks: `0 <= p / q <= p`, and strictly when `q >= 2`
/// and `p > 0`.
proof fn lemma_div_shrinks(p: int, q: int)
    requires
        p >= 0,
        q >= 1,
    ensures
        0 <= p / q <= p,
        p == 0 ==> p / q == 0,
        q >= 2 && p > 0 ==> p / q < p,
{
    assert(0 <= p / q <= p) by (nonlinear_arith)
        requires
            p >= 0,
            q >= 1,
    ;
    assert(p == 0 ==> p / q == 0) by (nonlinear_arith)
        requires
            q >= 1,
    ;
    assert(q >= 2 && p > 0 ==> p / q < p) by (nonlinear_arith)
        requires
            p >= 0,
            q >= 1,
    ;
}

/// Away from the least `i64` divided by `-1`, the quotient rounded toward
/// zero is an `i64`.
proof fn lemma_quotient_in_range(a: i64, b: i64)
    requires
        b != 0,
        !(a == i64::MIN && b == -1),
    ensures
        i64::MIN <= trunc_div(a as int, b as int) <= i64::MAX,
{
    let x = a as int;
    let d = b as int;
    if x >= 0 {
        if d > 0 {
            lemma_div_shrinks(x, d);
        } else {
            lemma_div_shrinks(x, -d);
        }
    } else {
        if d > 0 {
            lemma_div_shrinks(-x, d);
        } else {
            lemma_div_shrinks(-x, -d);
        }
    }
}

fn eval_integer_infix_expression(operator: &String, left: i64, right: i64) -> (r: Object)
    ensures
        r@ == int_infix(operator@, left, right),
{
    if op_is(operator, "+") {
        Object::Integer(left.wrapping_add(right))
    } else if op_is(operator, "-") {
        Object::Integer(left.wrapping_sub(right))
    } else if op_is(operator, "*") {
        Object::Integer(left.wrapping_mul(right))
    } else if op_is(operator, "/") {
        if right == 0 {
            Object::Error(String::from_str("division by zero"))
        } else {
            Object::Integer(integer_quotient(left, right))
        }
    } else if op_is(operator, "<") {
        Object::Boolean(left < right)
    } else if op_is(operator, ">") {
        Object::Boolean(left > right)
    } else if op_is(operator, "==") {
        Object::Boolean(left == right)
    } else if op_is(operator, "!=") {
        Object::Boolean(left != right)
    } else {
        Object::Error(infix_message("unknown operator: ", "INTEGER", operator, "INTEGER"))
    }
}

fn eval_float_infix_expression(operator: &String, left: u64, right: u64) -> (r: Object)
    ensures
        r@ == float_infix(operator@, left, right),
{
    if op_is(operator, "+") {
        Object::Float(double_add(left, right))
    } else if op_is(operator, "-") {
        Object::Float(double_sub(left, right))
    } else if op_is(operator, "*") {
        Object::Float(double_mul(left, right))
    } else if op_is(operator, "/") {
        if right == 0 || right == 0x8000_0000_0000_0000u64 {
            Object::Error(String::from_str("division by zero"))
        } else {
            Object::Float(double_div(left, right))
        }
    } else if op_is(operator, "<") {
        Object::Boolean(double_lt(left, right))
    } else if op_is(operator, ">") {
        Object::Boolean(double_gt(left, right))
    } else if op_is(operator, "==") {
        Object::Boolean(double_eq(left, right))
    } else if op_is(operator, "!=") {
        Object::Boolean(!double_eq(left, right))
    } else {
        Object::Error(infix_message("unknown operator: ", "FLOAT", operator, "FLOAT"))
    }
}

fn eval_string_infix_expression(operator: &String, left: &String, right: &String) -> (r: Object)
    ensures
        r@ == str_infix(operator@, left@, right@),
{
    if op_is(operator, "+") {
        let mut s = left.clone();
        s.append(right.as_str());
        Object::String(s)
    } else if op_is(operator, "==") {
        Object::Boolean(*left == *right)
    } else if op_is(operator, "!=") {
        Object::Boolean(*left != *right)
    } else {
        Object::Error(infix_message("unknown operator: ", "STRING", operator, "STRING"))
    }
}

fn eval_infix_expression(
    frames: &Vec<Environment>,
    operator: &String,
    left: Object,
    right: Object,
) -> (r: Object)
    ensures
        r@ == infix(frames_model(frames@), operator@, left@, right@),
{
    reveal(infix);
    match (&left, &right) {
        (Object::Integer(a), Object::Integer(b)) => {
            return eval_integer_infix_expression(operator, *a, *b);
        },
        (Object::Float(a), Object::Float(b)) => {
            return eval_float_infix_expression(operator, *a, *b);
        },
        (Object::String(a), Object::String(b)) => {
            return eval_string_infix_expression(operator, a, b);
        },
        _ => {},
    }
    if op_is(operator, "==") {
        Object::Boolean(values_are_equal(frames, &left, &right))
    } else if op_is(operator, "!=") {
        Object::Boolean(!values_are_equal(frames, &left, &right))
    } else {
        let lk = left.object_type();
        let rk = right.object_type();
        if left.kind() != right.kind() {
            Object::Error(infix_message("type mismatch: ", lk, operator, rk))
        } else {
            Object::Error(infix_message("unknown operator: ", lk, operator, rk))
        }
    }
}

// ---------------------------------------------------------------------------
// The interpreter
/// A tree-walking evaluator. Its environments live in an arena, the current
/// one at index `env`; `steps` is how many evaluation steps it may still take;
/// `captured` tells whether a function value, which may refer to the
/// environments of the current scope, was made since that scope began.
pub struct Interpreter {
    envs: Vec<Environment>,
    env: usize,
    steps: u64,
    captured: bool,
}

impl View for Interpreter {
    type V = IState;

    closed spec fn view(&self) -> IState {
        IState {
            frames: frames_model(self.envs@),
            env: self.env as nat,
            steps: self.steps,
            captured: self.captured,
        }
    }
}

/// The models of a list of values.
pub open spec fn objs_model(s: Seq<Object>) -> Seq<ObjModel> {
    s.map_values(|o: Object| o@)
}

/// What every evaluation keeps: the current environment is still in the arena
/// and is the same one, and no steps were given back.
pub open spec fn stepped(before: IState, after: IState) -> bool {
    &&& state_ok(after)
    &&& after.env == before.env
    &&& after.steps <= before.steps
}

/// The state of a fresh interpreter that may take `limit` steps: one empty
/// global environment.
pub open spec fn initial_state(limit: u64) -> IState {
    IState {
        frames: seq![FrameModel { store: Seq::empty(), outer: None }],
        env: 0,
        steps: limit,
        captured: false,
    }
}

fn step_limit_error() -> (r: Object)
    ensures
        r@ == step_error(),
{
    Object::Error(String::from_str("evaluation step limit reached"))
}

/// Whether a statement's value ends the block it is in.
fn ends_block_value(o: &Object) -> (r: bool)
    ensures
        r == ends_block(o@),
{
    match o {
        Object::Error(_) | Object::ReturnValue(_) | Object::Break | Object::Continue => true,
        _ => false,
    }
}

fn is_break(o: &Object) -> (r: bool)
    ensures
        r == (o@ is Break),
{
    match o {
        Object::Break => true,
        _ => false,
    }
}

impl Interpreter {
    /// An interpreter with one empty global environment and no practical
    /// bound on its steps.
    pub fn new() -> (i: Interpreter)
        ensures
            i@ == initial_state(u64::MAX),
    {
        Interpreter::with_step_limit(u64::MAX)
    }

    /// An interpreter with one empty global environment that gives up with
    /// an error after `limit` evaluation steps.
    pub fn with_step_limit(limit: u64) -> (i: Interpreter)
        ensures
            i@ == initial_state(limit),
    {
        let mut envs: Vec<Environment> = Vec::new();
        envs.push(Environment::new());
        let i = Interpreter { envs, env: 0, steps: limit, captured: false };
        assert(frames_model(i.envs@) =~= initial_state(limit).frames);
        i
    }

    /// Evaluates a program: the value of its last statement, or the first
    /// returned value, or the first error.
    pub fn eval(&mut self, program: &Program) -> (r: Object)
        requires
            state_ok(old(self)@),
        ensures
            stepped(old(self)@, final(self)@),
            (r@, final(self)@) == eval_program(old(self)@, program@),
    {
        let ghost sm = program@;
        proof {
            lemma_stmts_model_index(program.statements@);
        }
        let mut result = Object::Null;
        let mut i: usize = 0;
        while i < program.statements.len()
            invariant
                0 <= i <= program.statements@.len(),
                sm == program@,
                sm.len() == program.statements@.len(),
                forall|j: int|
                    0 <= j < program.statements@.len() ==> #[trigger] sm[j] == stmt_model(
                        program.statements@[j],
                    ),
                stepped(old(self)@, self@),
                eval_program_loop(self@, sm, i as int, result@) == eval_program(old(self)@, sm),
            decreases program.statements@.len() - i,
        {
            result = self.eval_statement(&program.statements[i]);
            match result {
                Object::ReturnValue(v) => {
                    return *v;
                },
                Object::Error(_) => {
                    return result;
                },
                _ => {},
            }
            i = i + 1;
        }
        result
    }

    /// Evaluates a statement in the current environment.
    pub fn eval_statement(&mut self, stmt: &Statement) -> (r: Object)
        requires
            state_ok(old(self)@),
        ensures
            stepped(old(self)@, final(self)@),
            (r@, final(self)@) == eval_stmt(old(self)@, stmt_model(*stmt)),
        decreases old(self)@.steps, 0int,
    {
        if self.steps == 0 {
            return step_limit_error();
        }
        self.steps = self.steps - 1;
        match stmt {
            Statement::Expression { expression, .. } => self.eval_expression(expression),
            Statement::Let { name, value, .. } => {
                let val = self.eval_expression(value);
                if val.is_error() {
                    return val;
                }
                let env = self.env;
                let ghost before = self@;
                let r = self.envs[env].set(name.value.clone(), val);
                proof {
                    assert(frames_model(self.envs@) =~= set_var(before, name.value@, r@).frames);
                }
                r
            },
            Statement::Return { return_value, .. } => {
                let val = self.eval_expression(return_value);
                if val.is_error() {
                    return val;
                }
                Object::ReturnValue(Box::new(val))
            },
            Statement::If { condition, consequence, alternative, .. } => self.eval_if_statement(
                condition,
                consequence,
                alternative,
            ),
            Statement::While { condition, body, .. } => self.eval_while_loop(condition, body),
            Statement::For { initializer, condition, update, body, .. } => self.eval_for_loop(
                initializer,
                condition,
                update,
                body,
            ),
            Statement::Break { .. } => Object::Break,
            Statement::Continue { .. } => Object::Continue,
            Statement::Block(block) => self.eval_block_statement(block),
        }
    }

    fn eval_expression(&mut self, expr: &Expression) -> (r: Object)
        requires
            state_ok(old(self)@),
        ensures
            stepped(old(self)@, final(self)@),
            (r@, final(self)@) == eval_expr(old(self)@, expr_model(*expr)),
        decreases old(self)@.steps, 0int,
    {
        if self.steps == 0 {
            return step_limit_error();
        }
        self.steps = self.steps - 1;
        match expr {
            Expression::Identifier(ident) => self.eval_identifier(ident),
            Expression::Int { value, .. } => Object::Integer(*value),
            Expression::Float { value, .. } => Object::Float(*value),
            Expression::String { value, .. } => Object::String(value.clone()),
            Expression::Bool { value, .. } => Object::Boolean(*value),
            Expression::Prefix { operator, right, .. } => {
                let right_val = self.eval_expression(right);
                if right_val.is_error() {
                    return right_val;
                }
                eval_prefix_expression(operator, right_val)
            },
            Expression::Infix { left, operator, right, .. } => {
                let left_val = self.eval_expression(left);
                if left_val.is_error() {
                    return left_val;
                }
                let right_val = self.eval_expression(right);
                if right_val.is_error() {
                    return right_val;
                }
                eval_infix_expression(&self.envs, operator, left_val, right_val)
            },
            Expression::Function { parameters, body, .. } => {
                self.captured = true;
                Object::Function {
                    parameters: duplicate_identifiers(parameters),
                    body: body.duplicate(),
                    env: self.env,
                }
            },
            Expression::Call { function, arguments, .. } => {
                let func_val = self.eval_expression(function);
                if func_val.is_error() {
                    return func_val;
                }
                let args_vals = self.eval_expressions(arguments);
                if args_vals.len() == 1 && args_vals[0].is_error() {
                    return args_vals[0].duplicate();
                }
                self.apply_function(func_val, args_vals)
            },
        }
    }

    fn eval_identifier(&self, ident: &Identifier) -> (r: Object)
        requires
            state_ok(self@),
        ensures
            r@ == match lookup(self@, ident.value@) {
                Some(v) => v,
                None => ObjModel::Error("identifier not found: "@ + ident.value@),
            },
    {
        match chain_get(&self.envs, self.env, &ident.value) {
            Some(v) => v,
            None => {
                let mut m = String::from_str("identifier not found: ");
                m.append(ident.value.as_str());
                Object::Error(m)
            },
        }
    }

    fn eval_expressions(&mut self, exps: &Vec<Expression>) -> (r: Vec<Object>)
        requires
            state_ok(old(self)@),
        ensures
            stepped(old(self)@, final(self)@),
            (objs_model(r@), final(self)@) == eval_args(
                old(self)@,
                exprs_model(exps@),
                0,
                Seq::empty(),
            ),
        decreases old(self)@.steps, 1int,
    {
        let ghost em = exprs_model(exps@);
        proof {
            lemma_exprs_model_index(exps@);
        }
        let mut result: Vec<Object> = Vec::new();
        let mut i: usize = 0;
        assert(objs_model(result@) =~= Seq::<ObjModel>::empty());
        while i < exps.len()
            invariant
                0 <= i <= exps@.len(),
                em == exprs_model(exps@),
                em.len() == exps@.len(),
                forall|j: int| 0 <= j < exps@.len() ==> #[trigger] em[j] == expr_model(exps@[j]),
                stepped(old(self)@, self@),
                eval_args(self@, em, i as int, objs_model(result@)) == eval_args(
                    old(self)@,
                    em,
                    0,
                    Seq::empty(),
                ),
            decreases exps@.len() - i,
        {
            let v = self.eval_expression(&exps[i]);
            if v.is_error() {
                let mut one: Vec<Object> = Vec::new();
                one.push(v);
                assert(objs_model(one@) =~= seq![one@[0]@]);
                return one;
            }
            let ghost before = objs_model(result@);
            result.push(v);
            assert(objs_model(result@) =~= before.push(v@));
            i = i + 1;
        }
        result
    }

    fn apply_function(&mut self, fn_obj: Object, args: Vec<Object>) -> (r: Object)
        requires
            state_ok(old(self)@),
        ensures
            stepped(old(self)@, final(self)@),
            (r@, final(self)@) == apply_fn(old(self)@, fn_obj@, objs_model(args@)),
        decreases old(self)@.steps, 3int,
    {
        match fn_obj {
            Object::Function { parameters, body, env } => {
                if parameters.len() != args.len() {
                    let mut m = String::from_str("wrong number of arguments. got=");
                    m.append(count_text(args.len()).as_str());
                    m.append(", want=");
                    m.append(count_text(parameters.len()).as_str());
                    return Object::Error(m);
                }
                let ghost pm = idents_model(parameters@);
                let ghost am = objs_model(args@);
                let mut frame = Environment::new_enclosed(env);
                let mut i: usize = 0;
                while i < parameters.len()
                    invariant
                        0 <= i <= parameters@.len(),
                        parameters@.len() == args@.len(),
                        pm == idents_model(parameters@),
                        am == objs_model(args@),
                        frame@ == (FrameModel {
                            store: bind_params(pm, am, i as nat),
                            outer: Some(env as nat),
                        }),
                    decreases parameters@.len() - i,
                {
                    let a = args[i].duplicate();
                    frame.set(parameters[i].value.clone(), a);
                    i = i + 1;
                }
                let old_env = self.env;
                let old_len = self.envs.len();
                let old_captured = self.captured;
                let ghost before = self@;
                self.captured = false;
                self.envs.push(frame);
                self.env = self.envs.len() - 1;
                assert(self@ == enter(before, bind_params(pm, am, pm.len()), env as nat)) by {
                    assert(frames_model(self.envs@) =~= enter(
                        before,
                        bind_params(pm, am, pm.len()),
                        env as nat,
                    ).frames);
                }
                let result = self.eval_block_statement(&body);
                self.leave_scope(old_len, old_env, old_captured);
                match result {
                    Object::ReturnValue(v) => *v,
                    _ => result,
                }
            },
            other => {
                let mut m = String::from_str("not a function: ");
                m.append(other.object_type());
                Object::Error(m)
            },
        }
    }

    fn eval_block_statement(&mut self, block: &BlockStatement) -> (r: Object)
        requires
            state_ok(old(self)@),
        ensures
            stepped(old(self)@, final(self)@),
            (r@, final(self)@) == eval_block(old(self)@, block_model(*block)),
        decreases old(self)@.steps, 2int,
    {
        let old_env = self.env;
        let old_len = self.envs.len();
        let old_captured = self.captured;
        let ghost before = self@;
        self.captured = false;
        self.envs.push(Environment::new_enclosed(old_env));
        self.env = self.envs.len() - 1;
        let ghost s1 = self@;
        assert(s1 == enter(before, Seq::empty(), old_env as nat)) by {
            assert(frames_model(self.envs@) =~= enter(before, Seq::empty(), old_env as nat).frames);
        }
        let ghost sm = stmts_model(block.statements@);
        proof {
            lemma_stmts_model_index(block.statements@);
        }
        let mut result = Object::Null;
        let mut i: usize = 0;
        while i < block.statements.len()
            invariant
                0 <= i <= block.statements@.len(),
                sm == stmts_model(block.statements@),
                sm.len() == block.statements@.len(),
                forall|j: int|
                    0 <= j < block.statements@.len() ==> #[trigger] sm[j] == stmt_model(
                        block.statements@[j],
                    ),
                stepped(s1, self@),
                old_env == old(self).env,
                old_len == old(self).envs@.len(),
                old_captured == old(self).captured,
                old_env < s1.env,
                s1.env == old_len,
                s1 == enter(old(self)@, Seq::empty(), old_env as nat),
                eval_block_loop(self@, sm, i as int, result@) == eval_block_loop(
                    s1,
                    sm,
                    0,
                    ObjModel::Null,
                ),
            decreases block.statements@.len() - i,
        {
            result = self.eval_statement(&block.statements[i]);
            if ends_block_value(&result) {
                self.leave_scope(old_len, old_env, old_captured);
                return result;
            }
            i = i + 1;
        }
        self.leave_scope(old_len, old_env, old_captured);
        result
    }

    /// Ends a scope that began with `len` environments in the arena, `env`
    /// current and `captured` as given.
    fn leave_scope(&mut self, len: usize, env: usize, captured: bool)
        requires
            env < len <= old(self).envs@.len(),
        ensures
            final(self)@ == leave(len as nat, env as nat, captured, old(self)@),
            state_ok(final(self)@),
    {
        if !self.captured {
            self.envs.truncate(len);
            assert(frames_model(self.envs@) =~= frames_model(old(self).envs@).take(len as int));
        }
        self.env = env;
        self.captured = captured || self.captured;
    }

    fn eval_if_statement(
        &mut self,
        condition: &Expression,
        consequence: &BlockStatement,
        alternative: &Option<BlockStatement>,
    ) -> (r: Object)
        requires
            state_ok(old(self)@),
        ensures
            stepped(old(self)@, final(self)@),
            (r@, final(self)@) == eval_if(
                old(self)@,
                expr_model(*condition),
                block_model(*consequence),
                opt_block_model(*alternative),
            ),
        decreases old(self)@.steps, 3int,
    {
        let cond_val = self.eval_expression(condition);
        if cond_val.is_error() {
            return cond_val;
        }
        if is_truthy(&cond_val) {
            self.eval_block_statement(consequence)
        } else {
            match alternative {
                Some(alt) => self.eval_block_statement(alt),
                None => Object::Null,
            }
        }
    }

    fn eval_while_loop(&mut self, condition: &Expression, body: &BlockStatement) -> (r: Object)
        requires
            state_ok(old(self)@),
        ensures
            stepped(old(self)@, final(self)@),
            (r@, final(self)@) == eval_while(
                old(self)@,
                expr_model(*condition),
                block_model(*body),
                ObjModel::Null,
            ),
        decreases old(self)@.steps, 3int,
    {
        let ghost c = expr_model(*condition);
        let ghost b = block_model(*body);
        let mut result = Object::Null;
        loop
            invariant
                c == expr_model(*condition),
                b == block_model(*body),
                stepped(old(self)@, self@),
                eval_while(self@, c, b, result@) == eval_while(old(self)@, c, b, ObjModel::Null),
            decreases self.steps,
        {
            if self.steps == 0 {
                return step_limit_error();
            }
            self.steps = self.steps - 1;
            let cond_val = self.eval_expression(condition);
            if cond_val.is_error() {
                return cond_val;
            }
            if !is_truthy(&cond_val) {
                return result;
            }
            result = self.eval_block_statement(body);
            if result.is_error() || is_break(&result) {
                return result;
            }
        }
    }

    fn eval_for_loop(
        &mut self,
        initializer: &Option<Box<Statement>>,
        condition: &Option<Expression>,
        update: &Option<Box<Statement>>,
        body: &BlockStatement,
    ) -> (r: Object)
        requires
            state_ok(old(self)@),
        ensures
            stepped(old(self)@, final(self)@),
            (r@, final(self)@) == eval_for(
                old(self)@,
                opt_stmt_box_model(*initializer),
                opt_expr_model(*condition),
                opt_stmt_box_model(*update),
                block_model(*body),
            ),
        decreases old(self)@.steps, 4int,
    {
        match initializer {
            Some(init) => {
                let init_res = self.eval_statement(init);
                if init_res.is_error() {
                    return init_res;
                }
            },
            None => {},
        }
        self.run_for_rounds(condition, update, body)
    }

    /// The rounds of a `for` loop, its initializer done.
    #[verifier::rlimit(100)]
    fn run_for_rounds(
        &mut self,
        condition: &Option<Expression>,
        update: &Option<Box<Statement>>,
        body: &BlockStatement,
    ) -> (r: Object)
        requires
            state_ok(old(self)@),
        ensures
            stepped(old(self)@, final(self)@),
            (r@, final(self)@) == eval_for_loop(
                old(self)@,
                opt_expr_model(*condition),
                opt_stmt_box_model(*update),
                block_model(*body),
                ObjModel::Null,
            ),
        decreases old(self)@.steps, 3int,
    {
        let ghost c = opt_expr_model(*condition);
        let ghost u = opt_stmt_box_model(*update);
        let ghost b = block_model(*body);
        let mut result = Object::Null;
        loop
            invariant
                c == opt_expr_model(*condition),
                u == opt_stmt_box_model(*update),
                b == block_model(*body),
                stepped(old(self)@, self@),
                eval_for_loop(self@, c, u, b, result@) == eval_for_loop(
                    old(self)@,
                    c,
                    u,
                    b,
                    ObjModel::Null,
                ),
            decreases self.steps,
        {
            if self.steps == 0 {
                return step_limit_error();
            }
            self.steps = self.steps - 1;
            match condition {
                Some(cond) => {
                    let cond_val = self.eval_expression(cond);
                    if cond_val.is_error() {
                        return cond_val;
                    }
                    if !is_truthy(&cond_val) {
                        return result;
                    }
                },
                None => {},
            }
            result = self.eval_block_statement(body);
            if result.is_error() || is_break(&result) {
                return result;
            }
            match update {
                Some(upd) => {
                    let upd_res = self.eval_statement(upd);
                    if upd_res.is_error() {
                        return upd_res;
                    }
                },
                None => {},
            }
        }
    }
}

// ---------------------------------------------------------------------------
// Laws of evaluation
/// `b` follows `a` with every environment `a` had left as it was, the same
/// current environment, and no steps given back.
pub open spec fn untouched(a: IState, b: IState) -> bool {
    &&& b.env == a.env
    &&& b.steps <= a.steps
    &&& a.frames.len() <= b.frames.len()
    &&& forall|i: int| 0 <= i < a.frames.len() ==> #[trigger] b.frames[i] == a.frames[i]
}

/// `b` follows `a` with every environment `a` had but the current one left
/// as it was, the same current environment, and no steps given back.
pub open spec fn confined(a: IState, b: IState) -> bool {
    &&& b.env == a.env
    &&& b.steps <= a.steps
    &&& a.frames.len() <= b.frames.len()
    &&& forall|i: int|
        0 <= i < a.frames.len() && i != a.env ==> #[trigger] b.frames[i] == a.frames[i]
}

/// Evaluating an expression changes no environment that exists: only calls
/// make new ones.
pub proof fn law_expression_keeps_environments(st: IState, e: ExprModel)
    ensures
        untouched(st, eval_expr(st, e).1),
    decreases st.steps, 0int, 0int,
{
    if st.steps > 0 {
        let s0 = tick(st);
        match e {
            ExprModel::Prefix { operator, right, .. } => {
                law_expression_keeps_environments(s0, *right);
            },
            ExprModel::Infix { left, operator, right, .. } => {
                let (l, s1) = eval_expr(s0, *left);
                law_expression_keeps_environments(s0, *left);
                if !(l is Error) {
                    law_expression_keeps_environments(s1, *right);
                }
            },
            ExprModel::Call { function, arguments, .. } => {
                let (f, s1) = eval_expr(s0, *function);
                law_expression_keeps_environments(s0, *function);
                if !(f is Error) {
                    let (args, s2) = eval_args(s1, arguments, 0, Seq::empty());
                    lemma_args_keep_environments(s1, arguments, 0, Seq::empty());
                    if !(args.len() == 1 && args[0] is Error) {
                        law_call_keeps_environments(s2, f, args);
                    }
                }
            },
            _ => {},
        }
    }
}

proof fn lemma_args_keep_environments(
    st: IState,
    args: Seq<ExprModel>,
    i: int,
    acc: Seq<ObjModel>,
)
    ensures
        untouched(st, eval_args(st, args, i, acc).1),
    decreases st.steps, 1int, args.len() - i,
{
    if 0 <= i < args.len() {
        let (v, s1) = eval_expr(st, args[i]);
        law_expression_keeps_environments(st, args[i]);
        if !(v is Error) {
            lemma_args_keep_environments(s1, args, i + 1, acc.push(v));
        }
    }
}

/// Calling a function changes no environment that exists: its parameters
/// and its body's bindings go into new ones.
pub proof fn law_call_keeps_environments(st: IState, f: ObjModel, args: Seq<ObjModel>)
    ensures
        untouched(st, apply_fn(st, f, args).1),
    decreases st.steps, 3int, 0int,
{
    match f {
        ObjModel::Function { parameters, body, env } => {
            if parameters.len() == args.len() {
                let s1 = enter(st, bind_params(parameters, args, parameters.len()), env);
                law_block_keeps_environments(s1, body);
                let s2 = eval_block(s1, body).1;
                assert(s2.frames.len() >= st.frames.len() + 1);
            }
        },
        _ => {},
    }
}

/// Evaluating a block changes no environment that exists before it, and the
/// current environment after it is the one before it: what the block binds
/// is gone when it ends.
pub proof fn law_block_keeps_environments(st: IState, b: BlockModel)
    ensures
        untouched(st, eval_block(st, b).1),
    decreases st.steps, 2int, 0int,
{
    let s1 = enter(st, Seq::empty(), st.env);
    lemma_block_loop_confined(s1, b.statements, 0, ObjModel::Null);
    let s2 = eval_block_loop(s1, b.statements, 0, ObjModel::Null).1;
    assert(s2.frames.len() >= st.frames.len() + 1);
}

proof fn lemma_block_loop_confined(st: IState, stmts: Seq<StmtModel>, i: int, last: ObjModel)
    ensures
        confined(st, eval_block_loop(st, stmts, i, last).1),
    decreases st.steps, 1int, stmts.len() - i,
{
    if 0 <= i < stmts.len() {
        let (r, s1) = eval_stmt(st, stmts[i]);
        law_statement_confined(st, stmts[i]);
        if !ends_block(r) {
            lemma_block_loop_confined(s1, stmts, i + 1, r);
        }
    }
}

/// Evaluating a statement changes no environment but the current one.
pub proof fn law_statement_confined(st: IState, s: StmtModel)
    ensures
        confined(st, eval_stmt(st, s).1),
    decreases st.steps, 0int, 0int,
{
    if st.steps > 0 {
        let s0 = tick(st);
        match s {
            StmtModel::Expr { expression, .. } => {
                law_expression_keeps_environments(s0, expression);
            },
            StmtModel::Let { name, value, .. } => {
                law_expression_keeps_environments(s0, value);
            },
            StmtModel::Return { return_value, .. } => {
                law_expression_keeps_environments(s0, return_value);
            },
            StmtModel::If { condition, consequence, alternative, .. } => {
                lemma_if_confined(s0, condition, consequence, alternative);
            },
            StmtModel::While { condition, body, .. } => {
                lemma_while_confined(s0, condition, body, ObjModel::Null);
            },
            StmtModel::For { initializer, condition, update, body, .. } => {
                lemma_for_confined(s0, initializer, condition, update, body);
            },
            StmtModel::Block(b) => {
                law_block_keeps_environments(s0, b);
            },
            _ => {},
        }
    }
}

proof fn lemma_if_confined(st: IState, c: ExprModel, cons: BlockModel, alt: Option<BlockModel>)
    ensures
        confined(st, eval_if(st, c, cons, alt).1),
    decreases st.steps, 3int, 0int,
{
    let (v, s1) = eval_expr(st, c);
    law_expression_keeps_environments(st, c);
    if !(v is Error) {
        if truthy(v) {
            law_block_keeps_environments(s1, cons);
        } else {
            match alt {
                Some(a) => {
                    law_block_keeps_environments(s1, a);
                },
                None => {},
            }
        }
    }
}

proof fn lemma_while_confined(st: IState, c: ExprModel, body: BlockModel, last: ObjModel)
    ensures
        confined(st, eval_while(st, c, body, last).1),
    decreases st.steps, 3int, 0int,
{
    if st.steps > 0 {
        let s0 = tick(st);
        let (v, s1) = eval_expr(s0, c);
        law_expression_keeps_environments(s0, c);
        if !(v is Error) && truthy(v) {
            let (r, s2) = eval_block(s1, body);
            law_block_keeps_environments(s1, body);
            if !(r is Error || r is Break) {
                lemma_while_confined(s2, c, body, r);
            }
        }
    }
}

proof fn lemma_for_confined(
    st: IState,
    init: Option<Box<StmtModel>>,
    c: Option<ExprModel>,
    u: Option<Box<StmtModel>>,
    body: BlockModel,
)
    ensures
        confined(st, eval_for(st, init, c, u, body).1),
    decreases st.steps, 4int, 0int,
{
    match init {
        Some(i) => {
            let (v, s1) = eval_stmt(st, *i);
            law_statement_confined(st, *i);
            if !(v is Error) {
                lemma_for_loop_confined(s1, c, u, body, ObjModel::Null);
            }
        },
        None => {
            lemma_for_loop_confined(st, c, u, body, ObjModel::Null);
        },
    }
}

proof fn lemma_for_loop_confined(
    st: IState,
    c: Option<ExprModel>,
    u: Option<Box<StmtModel>>,
    body: BlockModel,
    last: ObjModel,
)
    ensures
        confined(st, eval_for_loop(st, c, u, body, last).1),
    decreases st.steps, 3int, 0int,
{
    if st.steps > 0 {
        let s0 = tick(st);
        let (v, s1) = match c {
            Some(e) => eval_expr(s0, e),
            None => (ObjModel::Boolean(true), s0),
        };
        match c {
            Some(e) => {
                law_expression_keeps_environments(s0, e);
            },
            None => {},
        }
        if !(v is Error) && truthy(v) {
            let (r, s2) = eval_block(s1, body);
            law_block_keeps_environments(s1, body);
            if !(r is Error || r is Break) {
                match u {
                    Some(us) => {
                        let (w, s3) = eval_stmt(s2, *us);
                        law_statement_confined(s2, *us);
                        if !(w is Error) {
                            lemma_for_loop_confined(s3, c, u, body, r);
                        }
                    },
                    None => {
                        lemma_for_loop_confined(s2, c, u, body, r);
                    },
                }
            }
        }
    }
}

/// After `const name = value;` gives a value, the name evaluates to that
/// value in the current environment.
pub proof fn law_binding_is_visible(st: IState, tok: TokenModel, name: IdentModel, value: ExprModel)
    requires
        state_ok(st),
        st.steps > 0,
        !(eval_stmt(st, StmtModel::Let { token: tok, name, value }).0 is Error),
    ensures
        ({
            let (v, s2) = eval_stmt(st, StmtModel::Let { token: tok, name, value });
            lookup(s2, name.value) == Some(v)
        }),
{
    let s0 = tick(st);
    let (v, s1) = eval_expr(s0, value);
    law_expression_keeps_environments(s0, value);
    law_find_after_bind(s1.frames[s1.env as int].store, name.value, v);
}

/// After an environment binds `name` to `v`, `name` is seen from it as `v`,
/// and every other name as before.
pub proof fn law_get_after_set(
    frames: Seq<FrameModel>,
    f: FrameModel,
    name: Seq<char>,
    v: ObjModel,
    other: Seq<char>,
)
    ensures
        frame_get(frames, FrameModel { store: bind(f.store, name, v), outer: f.outer }, name)
            == Some(v),
        other != name ==> frame_get(
            frames,
            FrameModel { store: bind(f.store, name, v), outer: f.outer },
            other,
        ) == frame_get(frames, f, other),
{
    law_find_after_bind(f.store, name, v);
    if other != name {
        law_bind_keeps_others(f.store, name, v, other);
    }
}

// ---------------------------------------------------------------------------
// Laws of printing and of scoping
proof fn lemma_digit_char_value(d: int)
    requires
        0 <= d < 10,
    ensures
        digit_value(digit_char(d)) == d,
        '0' <= digit_char(d) <= '9',
        d >= 1 ==> digit_char(d) != '0',
{
}

proof fn lemma_nat_text_digits(n: nat)
    ensures
        nat_text(n).len() >= 1,
        digits_valid(nat_text(n), 10),
        digits_value(nat_text(n), 10) == n,
        n >= 1 ==> nat_text(n)[0] != '0',
        '0' <= nat_text(n)[0] <= '9',
        n < 100 ==> nat_text(n).len() <= 2,
    decreases n,
{
    if n < 10 {
        lemma_digit_char_value(n as int);
        let t = seq![digit_char(n as int)];
        assert(t.drop_last() =~= Seq::<char>::empty());
        assert(t.last() == digit_char(n as int));
        assert(digits_value(t, 10) == digits_value(t.drop_last(), 10) * 10 + digit_value(t.last()));
    } else {
        let m = n / 10;
        lemma_nat_text_digits(m);
        let t = nat_text(m);
        lemma_digit_char_value((n % 10) as int);
        let c = digit_char((n % 10) as int);
        assert(nat_text(n) == t.push(c));
        assert(t.push(c).drop_last() =~= t);
        assert(t.push(c).last() == c);
        assert(digits_value(t.push(c), 10) == digits_value(t, 10) * 10 + digit_value(c));
        assert(n == m * 10 + n % 10);
        assert(digits_valid(t.push(c), 10)) by {
            assert forall|i: int| 0 <= i < t.push(c).len() implies #[trigger] digit_value(
                t.push(c)[i],
            ) < 10 by {
                if i < t.len() {
                    assert(t.push(c)[i] == t[i]);
                }
            }
        }
        if n < 100 {
            assert(m < 10);
        }
    }
}

/// Printing an integer and reading the text back as an integer literal
/// gives the integer again.
pub proof fn law_integer_text_reads_back(v: i64)
    ensures
        int_literal_value(int_text(v as int)) == Some(v),
{
    if v >= 0 {
        lemma_nat_text_digits(v as nat);
    } else {
        let m = (-v) as nat;
        lemma_nat_text_digits(m);
        let t = int_text(v as int);
        assert(t == seq!['-'] + nat_text(m));
        assert(t.drop_first() =~= nat_text(m));
    }
}

/// What a name denotes from an environment depends only on that environment
/// and the ones before it.
proof fn lemma_chain_lookup_stable(a: Seq<FrameModel>, b: Seq<FrameModel>, k: nat, name: Seq<char>)
    requires
        k < a.len() <= b.len(),
        forall|i: int| 0 <= i < a.len() ==> #[trigger] b[i] == a[i],
    ensures
        chain_lookup(b, k, name) == chain_lookup(a, k, name),
    decreases k,
{
    assert(b[k as int] == a[k as int]);
    match a[k as int].outer {
        Some(k2) => {
            if k2 < k {
                lemma_chain_lookup_stable(a, b, k2, name);
            }
        },
        None => {},
    }
}

/// Evaluating a block changes what no name denotes in the current
/// environment: bindings made in the block are gone after it.
pub proof fn law_block_keeps_lookups(st: IState, b: BlockModel, name: Seq<char>)
    requires
        state_ok(st),
    ensures
        lookup(eval_block(st, b).1, name) == lookup(st, name),
{
    let s2 = eval_block(st, b).1;
    law_block_keeps_environments(st, b);
    lemma_chain_lookup_stable(st.frames, s2.frames, st.env, name);
}

/// Calling a function changes what no name denotes in the current
/// environment.
pub proof fn law_call_keeps_lookups(st: IState, f: ObjModel, args: Seq<ObjModel>, name: Seq<char>)
    requires
        state_ok(st),
    ensures
        lookup(apply_fn(st, f, args).1, name) == lookup(st, name),
{
    let s2 = apply_fn(st, f, args).1;
    law_call_keeps_environments(st, f, args);
    lemma_chain_lookup_stable(st.frames, s2.frames, st.env, name);
}

/// `const name = value;` binds in the current environment only. Its value is
/// that of `value`; evaluating `value` changes no environment; when it gives
/// an error nothing is bound, and otherwise the current environment binds
/// `name` to the value and every other environment is left as it was. (With
/// no evaluation step left, the statement gives the step-limit error and
/// changes nothing.)
pub proof fn law_let_binds_here_only(st: IState, tok: TokenModel, name: IdentModel, value: ExprModel)
    requires
        state_ok(st),
    ensures
        st.steps == 0 ==> eval_stmt(st, StmtModel::Let { token: tok, name, value }) == (
            step_error(),
            st,
        ),
        st.steps > 0 ==> ({
            let (v, s1) = eval_expr(tick(st), value);
            let (r, s2) = eval_stmt(st, StmtModel::Let { token: tok, name, value });
            &&& r == v
            &&& untouched(st, s1)
            &&& (v is Error ==> s2 == s1)
            &&& (!(v is Error) ==> {
                &&& s2.frames.len() == s1.frames.len()
                &&& s2.frames[st.env as int].store == bind(
                    s1.frames[st.env as int].store,
                    name.value,
                    v,
                )
                &&& forall|i: int|
                    0 <= i < s1.frames.len() && i != st.env ==> #[trigger] s2.frames[i]
                        == s1.frames[i]
            })
        }),
{
    if st.steps > 0 {
        law_expression_keeps_environments(tick(st), value);
    }
}

/// Errors propagate: an operand that evaluates to an error is the value of
/// the operator expression (the right operand of an infix operator is then
/// not evaluated), a function expression or an argument list that gives an
/// error is the value of the call, and no function body runs. (With no
/// evaluation step left, every expression gives the step-limit error.)
pub proof fn law_errors_propagate(st: IState, e: ExprModel)
    ensures
        st.steps == 0 ==> eval_expr(st, e) == (step_error(), st),
        st.steps > 0 ==> ({
            let s0 = tick(st);
            match e {
                ExprModel::Prefix { right, .. } => eval_expr(s0, *right).0 is Error ==> eval_expr(
                    st,
                    e,
                ) == eval_expr(s0, *right),
                ExprModel::Infix { left, right, .. } => {
                    let (l, s1) = eval_expr(s0, *left);
                    &&& l is Error ==> eval_expr(st, e) == (l, s1)
                    &&& (!(l is Error) && eval_expr(s1, *right).0 is Error) ==> eval_expr(st, e)
                        == eval_expr(s1, *right)
                },
                ExprModel::Call { function, arguments, .. } => {
                    let (f, s1) = eval_expr(s0, *function);
                    let (args, s2) = eval_args(s1, arguments, 0, Seq::empty());
                    &&& f is Error ==> eval_expr(st, e) == (f, s1)
                    &&& (!(f is Error) && args.len() == 1 && args[0] is Error) ==> eval_expr(st, e)
                        == (args[0], s2)
                },
                _ => true,
            }
        }),
{
    if st.steps > 0 {
        let s0 = tick(st);
        match e {
            ExprModel::Infix { left, right, .. } => {
                law_expression_keeps_environments(s0, *left);
            },
            ExprModel::Call { function, arguments, .. } => {
                law_expression_keeps_environments(s0, *function);
            },
            _ => {},
        }
    }
}

/// An environment with no bindings, enclosed in none, binds no name.
pub proof fn law_empty_environment_binds_nothing(frames: Seq<FrameModel>, name: Seq<char>)
    ensures
        frame_get(frames, FrameModel { store: Seq::empty(), outer: None }, name) is None,
{
}

/// `break` in the body of a `for` loop ends the loop at once: when, in a round,
/// the condition holds and the body gives `Break`, the loop's value is that
/// `Break` and its state is the state after the body (the update does not run
/// and the condition is not tested again).
pub proof fn law_break_ends_for_loop(
    st: IState,
    c: Option<ExprModel>,
    u: Option<Box<StmtModel>>,
    body: BlockModel,
    last: ObjModel,
)
    ensures
        ({
            let s0 = tick(st);
            let (v, s1) = match c {
                Some(e) => eval_expr(s0, e),
                None => (ObjModel::Boolean(true), s0),
            };
            let (r, s2) = eval_block(s1, body);
            (st.steps > 0 && !(v is Error) && truthy(v) && r is Break) ==> eval_for_loop(
                st,
                c,
                u,
                body,
                last,
            ) == (r, s2)
        }),
{
    if st.steps > 0 {
        match c {
            Some(e) => {
                law_expression_keeps_environments(tick(st), e);
            },
            None => {},
        }
    }
}

/// `break` in the body of a `while` loop ends the loop at once, its value
/// being that `Break` and its state the state after the body.
pub proof fn law_break_ends_while_loop(st: IState, c: ExprModel, body: BlockModel, last: ObjModel)
    ensures
        ({
            let s0 = tick(st);
            let (v, s1) = eval_expr(s0, c);
            let (r, s2) = eval_block(s1, body);
            (st.steps > 0 && !(v is Error) && truthy(v) && r is Break) ==> eval_while(
                st,
                c,
                body,
                last,
            ) == (r, s2)
        }),
{
    if st.steps > 0 {
        law_expression_keeps_environments(tick(st), c);
    }
}

/// A call binds each parameter to the argument in the same position: when
/// the parameter names are distinct, the `i`-th name is bound to the `i`-th
/// argument.
pub proof fn law_parameters_bound_in_order(ps: Seq<IdentModel>, args: Seq<ObjModel>, n: nat, i: int)
    requires
        n <= ps.len(),
        n <= args.len(),
        0 <= i < n,
        forall|j: int, k: int| 0 <= j < n && 0 <= k < n && j != k ==> ps[j].value != ps[k].value,
    ensures
        find_binding(bind_params(ps, args, n), ps[i].value) == Some(args[i]),
    decreases n,
{
    let m = (n - 1) as nat;
    if i == m {
        law_find_after_bind(bind_params(ps, args, m), ps[m as int].value, args[m as int]);
    } else {
        law_parameters_bound_in_order(ps, args, m, i);
        law_bind_keeps_others(
            bind_params(ps, args, m),
            ps[m as int].value,
            args[m as int],
            ps[i].value,
        );
    }
}

/// `<` and `>` on integers are the order of the integers as signed numbers;
/// `<` holds exactly when `>` holds with the operands swapped, and, when
/// `a - b` does not overflow, exactly when that difference is negative.
pub proof fn law_integer_order(a: i64, b: i64)
    ensures
        int_infix("<"@, a, b) == ObjModel::Boolean((a as int) < (b as int)),
        int_infix(">"@, a, b) == ObjModel::Boolean((a as int) > (b as int)),
        int_infix("<"@, a, b) == int_infix(">"@, b, a),
        i64::MIN <= a - b <= i64::MAX ==> int_infix("-"@, a, b) == ObjModel::Integer(
            (a - b) as i64,
        ) && (int_infix("<"@, a, b) == ObjModel::Boolean(a - b < 0)),
{
    reveal_strlit("+");
    reveal_strlit("-");
    reveal_strlit("*");
    reveal_strlit("/");
    reveal_strlit("<");
    reveal_strlit(">");
    assert("<"@[0] != "+"@[0] && "<"@[0] != "-"@[0] && "<"@[0] != "*"@[0] && "<"@[0] != "/"@[0]);
    assert(">"@[0] != "+"@[0] && ">"@[0] != "-"@[0] && ">"@[0] != "*"@[0] && ">"@[0] != "/"@[0]);
    assert(">"@[0] != "<"@[0] && "-"@[0] != "+"@[0]);
    assert("<"@ != "+"@ && "<"@ != "-"@ && "<"@ != "*"@ && "<"@ != "/"@);
    assert(">"@ != "+"@ && ">"@ != "-"@ && ">"@ != "*"@ && ">"@ != "/"@ && ">"@ != "<"@);
    assert("-"@ != "+"@);
}

/// In a block, the first statement whose value is an error, a returned value,
/// `break` or `continue` ends the block: that value is the block's, and no
/// later statement runs (the state is the one after that statement).
pub proof fn law_block_stops_at_first_ending(st: IState, stmts: Seq<StmtModel>, i: int, last: ObjModel)
    requires
        0 <= i < stmts.len(),
    ensures
        ({
            let (r, s1) = eval_stmt(st, stmts[i]);
            (r is Error || r is ReturnValue || r is Break || r is Continue) ==> eval_block_loop(
                st,
                stmts,
                i,
                last,
            ) == (r, s1)
        }),
{
}

/// Integer `+`, `-` and `*` are the arithmetic sums, differences and products
/// whenever these fit in an `i64`, and division by zero is an error.
pub proof fn law_integer_arithmetic(a: i64, b: i64)
    ensures
        i64::MIN <= a + b <= i64::MAX ==> int_infix("+"@, a, b) == ObjModel::Integer((a + b) as i64),
        i64::MIN <= a - b <= i64::MAX ==> int_infix("-"@, a, b) == ObjModel::Integer((a - b) as i64),
        i64::MIN <= a * b <= i64::MAX ==> int_infix("*"@, a, b) == ObjModel::Integer((a * b) as i64),
        b == 0 ==> int_infix("/"@, a, b) == ObjModel::Error("division by zero"@),
{
    reveal_strlit("+");
    reveal_strlit("-");
    reveal_strlit("*");
    reveal_strlit("/");
    assert("-"@[0] != "+"@[0] && "*"@[0] != "+"@[0] && "*"@[0] != "-"@[0]);
    assert("/"@[0] != "+"@[0] && "/"@[0] != "-"@[0] && "/"@[0] != "*"@[0]);
    assert("-"@ != "+"@ && "*"@ != "+"@ && "*"@ != "-"@);
    assert("/"@ != "+"@ && "/"@ != "-"@ && "/"@ != "*"@);
    if i64::MIN <= a * b <= i64::MAX {
        assert(vstd::wrapping::i64_specs::wrapping_mul(a, b) == (a * b) as i64) by {
            let x = a * b;
            assert(x % 0x1_0000_0000_0000_0000int == if x >= 0 { x } else { x + 0x1_0000_0000_0000_0000int }) by (nonlinear_arith)
                requires
                    i64::MIN <= x <= i64::MAX,
            ;
        }
    }
}

/// `!=` is the negation of `==`, on any two values.
pub proof fn law_not_equal_negates_equal(frames: Seq<FrameModel>, l: ObjModel, r: ObjModel)
    ensures
        infix(frames, "=="@, l, r) is Boolean,
        infix(frames, "!="@, l, r) == ObjModel::Boolean(!(infix(frames, "=="@, l, r)->Boolean_0)),
{
    reveal(infix);
    reveal_strlit("+");
    reveal_strlit("-");
    reveal_strlit("*");
    reveal_strlit("/");
    reveal_strlit("<");
    reveal_strlit(">");
    reveal_strlit("==");
    reveal_strlit("!=");
    assert("=="@.len() == 2 && "!="@.len() == 2 && "+"@.len() == 1 && "-"@.len() == 1);
    assert("*"@.len() == 1 && "/"@.len() == 1 && "<"@.len() == 1 && ">"@.len() == 1);
    assert("=="@[0] != "!="@[0]);
    assert("=="@ != "!="@);
}

/// Integer equality is equality of the integers.
pub proof fn law_integer_equality(a: i64, b: i64)
    ensures
        int_infix("=="@, a, b) == ObjModel::Boolean(a == b),
        int_infix("!="@, a, b) == ObjModel::Boolean(a != b),
{
    reveal_strlit("+");
    reveal_strlit("-");
    reveal_strlit("*");
    reveal_strlit("/");
    reveal_strlit("<");
    reveal_strlit(">");
    reveal_strlit("==");
    reveal_strlit("!=");
    assert("=="@.len() == 2 && "!="@.len() == 2 && "+"@.len() == 1 && "-"@.len() == 1);
    assert("*"@.len() == 1 && "/"@.len() == 1 && "<"@.len() == 1 && ">"@.len() == 1);
    assert("=="@[0] != "!="@[0]);
    assert("=="@ != "!="@);
}

/// `+` on strings joins them, the left one first.
pub proof fn law_string_concatenation(a: Seq<char>, b: Seq<char>)
    ensures
        str_infix("+"@, a, b) is Str,
        str_infix("+"@, a, b)->Str_0.len() == a.len() + b.len(),
        str_infix("+"@, a, b)->Str_0.subrange(0, a.len() as int) == a,
        str_infix("+"@, a, b)->Str_0.subrange(a.len() as int, (a.len() + b.len()) as int) == b,
{
    assert((a + b).subrange(0, a.len() as int) =~= a);
    assert((a + b).subrange(a.len() as int, (a.len() + b.len()) as int) =~= b);
}

/// `!v` is true exactly when `v` does not count as true in a condition.
pub proof fn law_bang_is_not_truthy(v: ObjModel)
    ensures
        bang(v) == ObjModel::Boolean(!truthy(v)),
{
}

/// Integer negation is subtraction from zero.
pub proof fn law_negation_is_subtraction_from_zero(v: i64)
    ensures
        minus(ObjModel::Integer(v)) == int_infix("-"@, 0, v),
        v != i64::MIN ==> minus(ObjModel::Integer(v)) == ObjModel::Integer((-v) as i64),
{
    reveal_strlit("+");
    reveal_strlit("-");
    assert("-"@[0] != "+"@[0]);
    assert("-"@ != "+"@);
}

/// A function literal captures the environment it is evaluated in.
pub proof fn law_closure_captures_current_environment(
    st: IState,
    tok: TokenModel,
    parameters: Seq<IdentModel>,
    body: BlockModel,
)
    requires
        st.steps > 0,
    ensures
        eval_expr(st, ExprModel::Function { token: tok, parameters, body }).0
            == (ObjModel::Function { parameters, body, env: st.env }),
{
}

/// A call's value is what its body returned, or else the value of its body's
/// last statement; a `return` ends only the call it is in.
pub proof fn law_call_value(st: IState, parameters: Seq<IdentModel>, body: BlockModel, env: nat, args: Seq<ObjModel>)
    requires
        parameters.len() == args.len(),
    ensures
        ({
            let s1 = enter(st, bind_params(parameters, args, parameters.len()), env);
            let r = eval_block(s1, body).0;
            let v = apply_fn(st, ObjModel::Function { parameters, body, env }, args).0;
            &&& r is ReturnValue ==> v == *(r->ReturnValue_0)
            &&& !(r is ReturnValue) ==> v == r
        }),
{
}

/// A call with the wrong number of arguments gives an error and changes
/// nothing.
pub proof fn law_call_arity(st: IState, parameters: Seq<IdentModel>, body: BlockModel, env: nat, args: Seq<ObjModel>)
    requires
        parameters.len() != args.len(),
    ensures
        apply_fn(st, ObjModel::Function { parameters, body, env }, args) == (
            ObjModel::Error(arity_msg(args.len(), parameters.len())),
            st,
        ),
{
}

/// A loop whose condition does not hold ends with the value of the round
/// before (`null` before any round), in the state after the condition.
pub proof fn law_false_condition_ends_loops(
    st: IState,
    c: ExprModel,
    u: Option<Box<StmtModel>>,
    body: BlockModel,
    last: ObjModel,
)
    ensures
        ({
            let (v, s1) = eval_expr(tick(st), c);
            (st.steps > 0 && !(v is Error) && !truthy(v)) ==> {
                &&& eval_while(st, c, body, last) == (last, s1)
                &&& eval_for_loop(st, Some(c), u, body, last) == (last, s1)
            }
        }),
{
}

/// An `if` runs the block its condition selects: the consequence when the
/// condition counts as true, else the alternative, else nothing (`null`).
pub proof fn law_if_selects_branch(st: IState, c: ExprModel, cons: BlockModel, alt: Option<BlockModel>)
    ensures
        ({
            let (v, s1) = eval_expr(st, c);
            &&& v is Error ==> eval_if(st, c, cons, alt) == (v, s1)
            &&& (!(v is Error) && truthy(v)) ==> eval_if(st, c, cons, alt) == eval_block(s1, cons)
            &&& (!(v is Error) && !truthy(v) && alt is Some) ==> eval_if(st, c, cons, alt)
                == eval_block(s1, alt->Some_0)
            &&& (!(v is Error) && !truthy(v) && alt is None) ==> eval_if(st, c, cons, alt) == (
                ObjModel::Null,
                s1,
            )
        }),
{
    law_expression_keeps_environments(st, c);
}

} // verus!
