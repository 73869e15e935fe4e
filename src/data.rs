//! Data flows and the database that holds them: the tokens of a flow, the
//! indexes built when the database is made, and the matcher of queries.
use vstd::prelude::*;

use crate::query::{opt_text, query_view, Predicate, QueryOps};

verus! {

/// An occurrence of a concrete or abstract type.
#[derive(Debug)]
pub struct Type {
    pub name: String,
    pub args: Vec<String>,
    /// Additional description of the specific flow
    pub desc: Option<String>,
}

/// Which positional argument of a named constructor a flow passes through.
#[derive(Debug)]
pub struct ConstructorArg {
    pub name: String,
    pub arg_index: usize,
    pub desc: Option<String>,
}

/// A source position: the text of a line and a half-open range of characters.
#[derive(Debug)]
pub struct ProgLoc {
    pub line: String,
    pub char_range: (usize, usize),
    pub desc: Option<String>,
}

/// The marker line under a line of `n` characters: a caret under each
/// character whose 0-based position lies in `start..end`, a space elsewhere.
pub open spec fn caret_text(n: nat, start: usize, end: usize) -> Seq<char> {
    Seq::new(n, |p: int| if start <= p < end { '^' } else { ' ' })
}

impl ProgLoc {
    /// Whether the range is non-empty and lies on the line.
    pub open spec fn range_fits(&self) -> bool {
        let n = self.line@.len();
        &&& self.char_range.0 < self.char_range.1
        &&& self.char_range.1 <= n
    }

    /// The marker line that shows the range under the line; `None` when the
    /// range does not fit the line.
    pub fn caret_line(&self) -> (r: Option<String>)
        ensures
            r is Some <==> self.range_fits(),
            r matches Some(c) ==> c@ == caret_text(
                self.line@.len(),
                self.char_range.0,
                self.char_range.1,
            ),
    {
        let n = self.line.as_str().unicode_len();
        let (start, end) = self.char_range;
        if start >= end || end > n {
            return None;
        }
        let ghost want = caret_text(n as nat, start, end);
        let mut out = String::new();
        let mut p: usize = 0;
        while p < n
            invariant
                p <= n,
                want == caret_text(n as nat, start, end),
                out@ == want.take(p as int),
            decreases n - p,
        {
            proof {
                reveal_strlit("^");
                reveal_strlit(" ");
            }
            if start <= p && p < end {
                out.append("^");
            } else {
                out.append(" ");
            }
            assert(out@ =~= want.take(p + 1));
            p = p + 1;
        }
        assert(want.take(n as int) =~= want);
        Some(out)
    }
}

/// An occurrence of a type variable.
#[derive(Debug)]
pub struct TypeVar {
    pub name: String,
    pub desc: Option<String>,
}

/// One step of a data flow.
#[derive(Debug)]
pub enum UnitFlow {
    Type(Type),
    ConstructorArg(ConstructorArg),
    TypeVar(TypeVar),
    ProgLoc(ProgLoc),
}

/// An ordered sequence of steps.
pub type DataFlow = Vec<UnitFlow>;

/// What a `UnitFlow` value stands for, with its text as sequences of characters.
pub enum Token {
    Type { name: Seq<char>, args: Seq<Seq<char>>, desc: Option<Seq<char>> },
    ConstructorArg { name: Seq<char>, arg_index: usize, desc: Option<Seq<char>> },
    TypeVar { name: Seq<char>, desc: Option<Seq<char>> },
    Location { line: Seq<char>, char_range: (usize, usize), desc: Option<Seq<char>> },
}

impl View for Type {
    type V = Token;

    open spec fn view(&self) -> Token {
        Token::Type {
            name: self.name@,
            args: self.args@.map_values(|a: String| a@),
            desc: opt_text(self.desc),
        }
    }
}

impl Clone for Type {
    fn clone(&self) -> (r: Type)
        ensures
            r@ == self@,
    {
        let args = self.args.clone();
        assert(args@ =~= self.args@);
        Type { name: self.name.clone(), args, desc: self.desc.clone() }
    }
}

impl View for UnitFlow {
    type V = Token;

    open spec fn view(&self) -> Token {
        match self {
            UnitFlow::Type(t) => t@,
            UnitFlow::ConstructorArg(c) => Token::ConstructorArg {
                name: c.name@,
                arg_index: c.arg_index,
                desc: opt_text(c.desc),
            },
            UnitFlow::TypeVar(v) => Token::TypeVar { name: v.name@, desc: opt_text(v.desc) },
            UnitFlow::ProgLoc(p) => Token::Location {
                line: p.line@,
                char_range: p.char_range,
                desc: opt_text(p.desc),
            },
        }
    }
}

/// The tokens of a flow.
pub open spec fn flow_view(f: Seq<UnitFlow>) -> Seq<Token> {
    f.map_values(|u: UnitFlow| u@)
}

/// The tokens of each flow of a collection.
pub open spec fn flows_view(fs: Seq<DataFlow>) -> Seq<Seq<Token>> {
    fs.map_values(|f: DataFlow| flow_view(f@))
}

/// The description that every kind of token may carry.
pub open spec fn desc_of(t: Token) -> Option<Seq<char>> {
    match t {
        Token::Type { desc, .. } => desc,
        Token::ConstructorArg { desc, .. } => desc,
        Token::TypeVar { desc, .. } => desc,
        Token::Location { desc, .. } => desc,
    }
}

/// Whether `t` is a type variable named `n`.
pub open spec fn is_type_var_named(t: Token, n: Seq<char>) -> bool {
    t matches Token::TypeVar { name, .. } && name == n
}

/// Whether some token of `flow` is a type variable named `n`.
pub open spec fn has_type_var(flow: Seq<Token>, n: Seq<char>) -> bool {
    exists|k: int| 0 <= k < flow.len() && is_type_var_named(#[trigger] flow[k], n)
}

/// The degree of `n`: how many flows of `flows` hold a type variable named
/// `n`, however often each of them holds it.
pub open spec fn degree(flows: Seq<Seq<Token>>, n: Seq<char>) -> nat
    decreases flows.len(),
{
    if flows.len() == 0 {
        0
    } else {
        degree(flows.drop_last(), n) + if has_type_var(flows.last(), n) {
            1nat
        } else {
            0nat
        }
    }
}

/// Whether `flow` holds a type variable named `name`.
fn flow_has_type_var(flow: &DataFlow, name: &String) -> (r: bool)
    ensures
        r == has_type_var(flow_view(flow@), name@),
{
    let ghost f = flow_view(flow@);
    let mut k: usize = 0;
    while k < flow.len()
        invariant
            k <= flow@.len(),
            f == flow_view(flow@),
            forall|j: int| 0 <= j < k ==> !is_type_var_named(#[trigger] f[j], name@),
        decreases flow.len() - k,
    {
        assert(f[k as int] == flow@[k as int]@);
        if let UnitFlow::TypeVar(v) = &flow[k] {
            if v.name == *name {
                assert(is_type_var_named(f[k as int], name@));
                return true;
            }
        }
        k = k + 1;
    }
    false
}

/// How many of `flows` hold a type variable named `name`.
fn count_flows_with_type_var(flows: &Vec<DataFlow>, name: &String) -> (r: usize)
    ensures
        r == degree(flows_view(flows@), name@),
{
    let ghost fs = flows_view(flows@);
    let mut count: usize = 0;
    let mut i: usize = 0;
    while i < flows.len()
        invariant
            i <= flows@.len(),
            fs == flows_view(flows@),
            count == degree(fs.take(i as int), name@),
            count <= i,
        decreases flows.len() - i,
    {
        assert(fs.take(i + 1).drop_last() =~= fs.take(i as int));
        assert(fs.take(i + 1).last() == flow_view(flows@[i as int]@));
        if flow_has_type_var(&flows[i], name) {
            count = count + 1;
        }
        i = i + 1;
    }
    assert(fs.take(i as int) =~= fs);
    count
}

/// Whether `t` is a type named `n`.
pub open spec fn is_type_named(t: Token, n: Seq<char>) -> bool {
    t matches Token::Type { name, .. } && name == n
}

/// Whether `t` is one of the tokens of `flows`.
pub open spec fn occurs(flows: Seq<Seq<Token>>, t: Token) -> bool {
    exists|f: int, k: int|
        0 <= f < flows.len() && 0 <= k < flows[f].len() && #[trigger] flows[f][k] == t
}

/// Whether some token of `flows` is a type named `n`.
pub open spec fn type_occurs(flows: Seq<Seq<Token>>, n: Seq<char>) -> bool {
    exists|f: int, k: int|
        0 <= f < flows.len() && 0 <= k < flows[f].len() && is_type_named(#[trigger] flows[f][k], n)
}

/// Whether an entry of `types` is named `n`.
spec fn type_listed(types: Seq<Type>, n: Seq<char>) -> bool {
    exists|i: int| 0 <= i < types.len() && (#[trigger] types[i]).name@ == n
}

/// Whether an entry of `names` is `n`.
spec fn name_listed(names: Seq<String>, n: Seq<char>) -> bool {
    exists|i: int| 0 <= i < names.len() && (#[trigger] names[i])@ == n
}

/// Whether an entry of `vars` is named `n`.
spec fn var_listed(vars: Seq<(String, usize)>, n: Seq<char>) -> bool {
    exists|i: int| 0 <= i < vars.len() && (#[trigger] vars[i]).0@ == n
}

/// Whether the token at position `k` of flow `f` comes before position `k0` of flow `f0`.
spec fn before(f: int, k: int, f0: int, k0: int) -> bool {
    f < f0 || (f == f0 && k < k0)
}

/// The loaded flows, with two indexes built from them once: the type
/// definitions, one for each type name that occurs, and the distinct names of
/// type variables, each with its degree.
pub struct Database {
    data_flows: Vec<DataFlow>,
    file_path: String,
    types: Vec<Type>,
    type_vars: Vec<(String, usize)>,
}

impl Database {
    /// The tokens of each flow of the database, in order.
    pub closed spec fn flows(&self) -> Seq<Seq<Token>> {
        flows_view(self.data_flows@)
    }

    #[verifier::type_invariant]
    spec fn indexes_hold(self) -> bool {
        let flows = flows_view(self.data_flows@);
        let types = self.types@;
        let vars = self.type_vars@;
        &&& forall|i: int, j: int|
            0 <= i < j < types.len() ==> types[i].name@ != types[j].name@
        &&& forall|i: int| 0 <= i < types.len() ==> occurs(flows, (#[trigger] types[i])@)
        &&& forall|f: int, k: int|
            0 <= f < flows.len() && 0 <= k < flows[f].len() && (#[trigger] flows[f][k]) is Type
                ==> type_listed(types, flows[f][k]->Type_name)
        &&& forall|i: int, j: int| 0 <= i < j < vars.len() ==> vars[i].0@ != vars[j].0@
        &&& forall|i: int|
            0 <= i < vars.len() ==> has_occurrence(flows, (#[trigger] vars[i]).0@)
                && vars[i].1 == degree(flows, vars[i].0@)
        &&& forall|f: int, k: int|
            0 <= f < flows.len() && 0 <= k < flows[f].len() && (#[trigger] flows[f][k]) is TypeVar
                ==> var_listed(vars, flows[f][k]->TypeVar_name)
    }
}

impl Database {
    /// The path of the file that the flows were traced from.
    pub closed spec fn path(&self) -> Seq<char> {
        self.file_path@
    }

    /// A database of `data_flows`, with its indexes built from them.
    pub fn new(data_flows: Vec<DataFlow>, file_path: String) -> (r: Database)
        ensures
            r.flows() == flows_view(data_flows@),
            r.path() == file_path@,
    {
        let ghost fs = flows_view(data_flows@);
        let mut types: Vec<Type> = Vec::new();
        let mut names: Vec<String> = Vec::new();
        let mut i: usize = 0;
        while i < data_flows.len()
            invariant
                i <= data_flows@.len(),
                fs == flows_view(data_flows@),
                forall|a: int, b: int|
                    0 <= a < b < types@.len() ==> types@[a].name@ != types@[b].name@,
                forall|a: int| 0 <= a < types@.len() ==> occurs(fs, (#[trigger] types@[a])@),
                forall|f: int, k: int|
                    0 <= f < i && 0 <= k < fs[f].len() && (#[trigger] fs[f][k]) is Type
                        ==> type_listed(types@, fs[f][k]->Type_name),
                forall|a: int, b: int| 0 <= a < b < names@.len() ==> names@[a]@ != names@[b]@,
                forall|a: int| 0 <= a < names@.len() ==> has_occurrence(fs, (#[trigger] names@[a])@),
                forall|f: int, k: int|
                    0 <= f < i && 0 <= k < fs[f].len() && (#[trigger] fs[f][k]) is TypeVar
                        ==> name_listed(names@, fs[f][k]->TypeVar_name),
            decreases data_flows.len() - i,
        {
            let flow = &data_flows[i];
            assert(fs[i as int] == flow_view(flow@));
            let mut k: usize = 0;
            while k < flow.len()
                invariant
                    i < data_flows@.len(),
                    k <= flow@.len(),
                    fs == flows_view(data_flows@),
                    fs[i as int] == flow_view(flow@),
                    forall|a: int, b: int|
                        0 <= a < b < types@.len() ==> types@[a].name@ != types@[b].name@,
                    forall|a: int| 0 <= a < types@.len() ==> occurs(fs, (#[trigger] types@[a])@),
                    forall|f: int, k2: int|
                        0 <= f < fs.len() && 0 <= k2 < fs[f].len() && before(
                            f,
                            k2,
                            i as int,
                            k as int,
                        ) && (#[trigger] fs[f][k2]) is Type ==> type_listed(
                            types@,
                            fs[f][k2]->Type_name,
                        ),
                    forall|a: int, b: int| 0 <= a < b < names@.len() ==> names@[a]@ != names@[b]@,
                    forall|a: int|
                        0 <= a < names@.len() ==> has_occurrence(fs, (#[trigger] names@[a])@),
                    forall|f: int, k2: int|
                        0 <= f < fs.len() && 0 <= k2 < fs[f].len() && before(
                            f,
                            k2,
                            i as int,
                            k as int,
                        ) && (#[trigger] fs[f][k2]) is TypeVar ==> name_listed(
                            names@,
                            fs[f][k2]->TypeVar_name,
                        ),
                decreases flow.len() - k,
            {
                assert(fs[i as int][k as int] == flow@[k as int]@);
                match &flow[k] {
                    UnitFlow::Type(t) => {
                        let ghost prev = types@;
                        record_type(&mut types, t);
                        assert forall|a: int| 0 <= a < types@.len() implies occurs(
                            fs,
                            (#[trigger] types@[a])@,
                        ) by {
                            if types@[a]@ == t@ {
                                assert(fs[i as int][k as int] == t@);
                            } else {
                                let j = choose|j: int|
                                    0 <= j < prev.len() && types@[a]@ == (#[trigger] prev[j])@;
                                assert(occurs(fs, prev[j]@));
                            }
                        }
                    },
                    UnitFlow::TypeVar(v) => {
                        let ghost prev = names@;
                        record_name(&mut names, &v.name);
                        assert(has_type_var(fs[i as int], v.name@)) by {
                            assert(is_type_var_named(fs[i as int][k as int], v.name@));
                        }
                        assert forall|a: int| 0 <= a < names@.len() implies has_occurrence(
                            fs,
                            (#[trigger] names@[a])@,
                        ) by {
                            if names@[a]@ == v.name@ {
                                assert(has_type_var(fs[i as int], names@[a]@));
                            } else {
                                let j = choose|j: int|
                                    0 <= j < prev.len() && names@[a]@ == (#[trigger] prev[j])@;
                                assert(has_occurrence(fs, prev[j]@));
                            }
                        }
                    },
                    _ => {},
                }
                k = k + 1;
            }
            i = i + 1;
        }
        let mut type_vars: Vec<(String, usize)> = Vec::new();
        let mut j: usize = 0;
        while j < names.len()
            invariant
                j <= names@.len(),
                fs == flows_view(data_flows@),
                type_vars@.len() == j,
                forall|a: int|
                    0 <= a < j ==> (#[trigger] type_vars@[a]).0@ == names@[a]@ && type_vars@[a].1
                        == degree(fs, names@[a]@),
            decreases names.len() - j,
        {
            let d = count_flows_with_type_var(&data_flows, &names[j]);
            type_vars.push((names[j].clone(), d));
            j = j + 1;
        }
        proof {
            assert forall|f: int, k: int|
                0 <= f < fs.len() && 0 <= k < fs[f].len() && (#[trigger] fs[f][k]) is TypeVar
                    implies var_listed(type_vars@, fs[f][k]->TypeVar_name) by {
                let a = choose|a: int|
                    0 <= a < names@.len() && (#[trigger] names@[a])@ == fs[f][k]->TypeVar_name;
                assert(type_vars@[a].0@ == names@[a]@);
            }
            assert forall|a: int, b: int| 0 <= a < b < type_vars@.len() implies type_vars@[a].0@
                != type_vars@[b].0@ by {
                assert(type_vars@[a].0@ == names@[a]@);
                assert(type_vars@[b].0@ == names@[b]@);
            }
        }
        Database { data_flows, file_path, types, type_vars }
    }
}

/// Whether some flow of `flows` holds a type variable named `n`.
pub open spec fn has_occurrence(flows: Seq<Seq<Token>>, n: Seq<char>) -> bool {
    exists|f: int| 0 <= f < flows.len() && has_type_var(#[trigger] flows[f], n)
}

/// Records `t` in `types`: it replaces the entry of the same name, or is added.
fn record_type(types: &mut Vec<Type>, t: &Type)
    requires
        forall|i: int, j: int|
            0 <= i < j < old(types)@.len() ==> old(types)@[i].name@ != old(types)@[j].name@,
    ensures
        forall|i: int, j: int|
            0 <= i < j < final(types)@.len() ==> final(types)@[i].name@ != final(types)@[j].name@,
        forall|i: int|
            0 <= i < final(types)@.len() ==> (#[trigger] final(types)@[i])@ == t@ || exists|j: int|
                0 <= j < old(types)@.len() && final(types)@[i]@ == (#[trigger] old(types)@[j])@,
        type_listed(final(types)@, t.name@),
        forall|n: Seq<char>| type_listed(old(types)@, n) ==> type_listed(final(types)@, n),
{
    let mut i: usize = 0;
    while i < types.len()
        invariant
            types@ == old(types)@,
            i <= types@.len(),
            forall|a: int, b: int|
                0 <= a < b < types@.len() ==> types@[a].name@ != types@[b].name@,
            forall|j: int| 0 <= j < i ==> types@[j].name@ != t.name@,
        decreases types.len() - i,
    {
        if types[i].name == t.name {
            let ghost prev = types@;
            types.set(i, t.clone());
            assert forall|n: Seq<char>| type_listed(prev, n) implies type_listed(types@, n) by {
                let j = choose|j: int| 0 <= j < prev.len() && (#[trigger] prev[j]).name@ == n;
                assert(types@[j].name@ == n);
            }
            assert(types@[i as int].name@ == t.name@);
            return;
        }
        i = i + 1;
    }
    let ghost prev = types@;
    types.push(t.clone());
    assert forall|n: Seq<char>| type_listed(prev, n) implies type_listed(types@, n) by {
        let j = choose|j: int| 0 <= j < prev.len() && (#[trigger] prev[j]).name@ == n;
        assert(types@[j].name@ == n);
    }
    assert(types@[prev.len() as int].name@ == t.name@);
}

/// Records `n` in `names` unless it is there already.
fn record_name(names: &mut Vec<String>, n: &String)
    requires
        forall|i: int, j: int| 0 <= i < j < old(names)@.len() ==> old(names)@[i]@ != old(names)@[j]@,
    ensures
        forall|i: int, j: int|
            0 <= i < j < final(names)@.len() ==> final(names)@[i]@ != final(names)@[j]@,
        forall|i: int|
            0 <= i < final(names)@.len() ==> (#[trigger] final(names)@[i])@ == n@ || exists|j: int|
                0 <= j < old(names)@.len() && final(names)@[i]@ == (#[trigger] old(names)@[j])@,
        name_listed(final(names)@, n@),
        forall|m: Seq<char>| name_listed(old(names)@, m) ==> name_listed(final(names)@, m),
{
    let mut i: usize = 0;
    while i < names.len()
        invariant
            names@ == old(names)@,
            i <= names@.len(),
            forall|a: int, b: int| 0 <= a < b < names@.len() ==> names@[a]@ != names@[b]@,
            forall|j: int| 0 <= j < i ==> names@[j]@ != n@,
        decreases names.len() - i,
    {
        if names[i] == *n {
            assert(names@[i as int]@ == n@);
            return;
        }
        i = i + 1;
    }
    let ghost prev = names@;
    names.push(n.clone());
    assert forall|m: Seq<char>| name_listed(prev, m) implies name_listed(names@, m) by {
        let j = choose|j: int| 0 <= j < prev.len() && (#[trigger] prev[j])@ == m;
        assert(names@[j]@ == m);
    }
    assert(names@[prev.len() as int]@ == n@);
}

/// Whether the index `arg_index` of a predicate admits the index `i` of a
/// token: any index when it is absent, else only itself.
pub open spec fn index_admits(arg_index: Option<usize>, i: usize) -> bool {
    match arg_index {
        Some(j) => i == j,
        None => true,
    }
}

/// Whether the token `t` satisfies the predicate `p`, in a database of `flows`.
/// A predicate tests only its own kind of token, except a description, which
/// every kind of token may carry.
pub open spec fn token_matches(flows: Seq<Seq<Token>>, t: Token, p: Predicate) -> bool {
    match p {
        Predicate::ByTypeVarDegree(count) => {
            &&& t is TypeVar
            &&& degree(flows, t->TypeVar_name) == count
        },
        Predicate::ByConstructorArg { name, arg_index, .. } => {
            &&& t is ConstructorArg
            &&& t->ConstructorArg_name == name
            &&& index_admits(arg_index, t->ConstructorArg_arg_index)
        },
        Predicate::ByType { name, .. } => {
            &&& t is Type
            &&& t->Type_name == name
        },
        Predicate::ByDescription(d) => desc_of(t) == Some(d),
    }
}

/// Whether the predicates `q` are satisfied, in order, by tokens of `flow` at
/// strictly increasing positions: the first at some position `j`, the rest
/// within the tokens after `j`.
pub open spec fn flow_matches(flows: Seq<Seq<Token>>, flow: Seq<Token>, q: Seq<Predicate>) -> bool
    decreases q.len(),
{
    if q.len() == 0 {
        true
    } else {
        exists|j: int|
            0 <= j < flow.len() && #[trigger] token_matches(flows, flow[j], q[0]) && flow_matches(
                flows,
                flow.skip(j + 1),
                q.drop_first(),
            )
    }
}

/// No flow holds a type variable that no token of them is.
proof fn lemma_degree_zero(flows: Seq<Seq<Token>>, n: Seq<char>)
    requires
        forall|f: int, k: int|
            0 <= f < flows.len() && 0 <= k < flows[f].len() ==> !is_type_var_named(
                #[trigger] flows[f][k],
                n,
            ),
    ensures
        degree(flows, n) == 0,
    decreases flows.len(),
{
    if flows.len() > 0 {
        let rest = flows.drop_last();
        assert forall|f: int, k: int|
            0 <= f < rest.len() && 0 <= k < rest[f].len() implies !is_type_var_named(
            #[trigger] rest[f][k],
            n,
        ) by {
            assert(rest[f] == flows[f]);
        }
        lemma_degree_zero(rest, n);
        if has_type_var(flows.last(), n) {
            let k = choose|k: int|
                0 <= k < flows.last().len() && is_type_var_named(#[trigger] flows.last()[k], n);
            assert(flows[flows.len() - 1][k] == flows.last()[k]);
        }
    }
}

/// Whether `o` holds the text `d`.
fn opt_text_is(o: &Option<String>, d: &String) -> (r: bool)
    ensures
        r == (opt_text(*o) == Some(d@)),
{
    match o {
        Some(x) => *x == *d,
        None => false,
    }
}

/// The description of a token of any kind.
fn desc_ref(uf: &UnitFlow) -> (r: &Option<String>)
    ensures
        opt_text(*r) == desc_of(uf@),
{
    match uf {
        UnitFlow::Type(t) => &t.desc,
        UnitFlow::ConstructorArg(c) => &c.desc,
        UnitFlow::TypeVar(v) => &v.desc,
        UnitFlow::ProgLoc(p) => &p.desc,
    }
}

impl Database {
    /// The degree of the type variable `name`, read from the index.
    fn degree_of(&self, name: &String) -> (r: usize)
        ensures
            r == degree(self.flows(), name@),
    {
        proof {
            use_type_invariant(self);
        }
        let mut i: usize = 0;
        while i < self.type_vars.len()
            invariant
                i <= self.type_vars@.len(),
                forall|j: int| 0 <= j < i ==> self.type_vars@[j].0@ != name@,
            decreases self.type_vars.len() - i,
        {
            if self.type_vars[i].0 == *name {
                proof {
                    use_type_invariant(self);
                    assert(self.type_vars@[i as int].1 == degree(
                        self.flows(),
                        self.type_vars@[i as int].0@,
                    ));
                }
                return self.type_vars[i].1;
            }
            i = i + 1;
        }
        proof {
            let fs = self.flows();
            assert forall|f: int, k: int|
                0 <= f < fs.len() && 0 <= k < fs[f].len() implies !is_type_var_named(
                #[trigger] fs[f][k],
                name@,
            ) by {
                if is_type_var_named(fs[f][k], name@) {
                    let j = choose|j: int|
                        0 <= j < self.type_vars@.len() && (#[trigger] self.type_vars@[j]).0@
                            == fs[f][k]->TypeVar_name;
                }
            }
            lemma_degree_zero(fs, name@);
        }
        0
    }

    /// Whether the token `uf` satisfies the predicate `query`.
    pub fn match_unit_flow(&self, uf: &UnitFlow, query: &QueryOps) -> (r: bool)
        ensures
            r == token_matches(self.flows(), uf@, query@),
    {
        match query {
            QueryOps::QTypeVar(count) => match uf {
                UnitFlow::TypeVar(v) => self.degree_of(&v.name) == *count,
                _ => false,
            },
            QueryOps::QType(q) => match uf {
                UnitFlow::Type(t) => t.name == q.name,
                _ => false,
            },
            QueryOps::QConstructorArg(q) => match uf {
                UnitFlow::ConstructorArg(c) => c.name == q.name && match q.arg_index {
                    Some(i) => c.arg_index == i,
                    None => true,
                },
                _ => false,
            },
            QueryOps::QDesc(d) => opt_text_is(desc_ref(uf), d),
        }
    }

    /// Whether `query[qi..]` matches `flow[fi..]`: each position from `fi` on
    /// that satisfies `query[qi]` is tried in turn, and the rest of the query
    /// is matched after it.
    fn match_from(
        &self,
        flow: &[UnitFlow],
        fi: usize,
        query: &[QueryOps],
        qi: usize,
    ) -> (r: bool)
        requires
            fi <= flow@.len(),
            qi <= query@.len(),
        ensures
            r == flow_matches(
                self.flows(),
                flow_view(flow@).skip(fi as int),
                query_view(query@).skip(qi as int),
            ),
        decreases query@.len() - qi,
    {
        let ghost f = flow_view(flow@);
        let ghost q = query_view(query@);
        if qi == query.len() {
            assert(q.skip(qi as int).len() == 0);
            return true;
        }
        let ghost rest = q.skip(qi as int);
        assert(rest[0] == q[qi as int]);
        assert(rest.drop_first() =~= q.skip(qi + 1));
        assert(q[qi as int] == query@[qi as int]@);
        let mut j = fi;
        while j < flow.len()
            invariant
                fi <= j <= flow@.len(),
                qi < query@.len(),
                f == flow_view(flow@),
                q == query_view(query@),
                rest == q.skip(qi as int),
                rest[0] == q[qi as int],
                rest.drop_first() == q.skip(qi + 1),
                q[qi as int] == query@[qi as int]@,
                forall|j2: int|
                    fi <= j2 < j ==> !(token_matches(self.flows(), #[trigger] f[j2], q[qi as int])
                        && flow_matches(self.flows(), f.skip(j2 + 1), q.skip(qi + 1))),
            decreases flow.len() - j,
        {
            assert(f[j as int] == flow@[j as int]@);
            if self.match_unit_flow(&flow[j], &query[qi]) && self.match_from(
                flow,
                j + 1,
                query,
                qi + 1,
            ) {
                let ghost sub = f.skip(fi as int);
                assert(sub[j - fi] == f[j as int]);
                assert(sub.skip(j - fi + 1) =~= f.skip(j + 1));
                return true;
            }
            j = j + 1;
        }
        proof {
            let sub = f.skip(fi as int);
            assert forall|j2: int| 0 <= j2 < sub.len() implies !(#[trigger] token_matches(
                self.flows(),
                sub[j2],
                rest[0],
            ) && flow_matches(self.flows(), sub.skip(j2 + 1), rest.drop_first())) by {
                assert(sub[j2] == f[fi + j2]);
                assert(sub.skip(j2 + 1) =~= f.skip(fi + j2 + 1));
            }
        }
        false
    }

    /// Whether `query` matches `flow`: its predicates are satisfied, in order,
    /// by tokens of `flow` at strictly increasing positions.
    pub fn match_flow(&self, flow: &[UnitFlow], query: &[QueryOps]) -> (r: bool)
        ensures
            r == flow_matches(self.flows(), flow_view(flow@), query_view(query@)),
    {
        let r = self.match_from(flow, 0, query, 0);
        assert(flow_view(flow@).skip(0) =~= flow_view(flow@));
        assert(query_view(query@).skip(0) =~= query_view(query@));
        r
    }

    /// The flows, in the order they were loaded.
    pub fn data_flows(&self) -> (r: &Vec<DataFlow>)
        ensures
            flows_view(r@) == self.flows(),
    {
        &self.data_flows
    }

    /// The path of the file that the flows were traced from.
    pub fn file_path(&self) -> (r: &String)
        ensures
            r@ == self.path(),
    {
        &self.file_path
    }

    /// The definition recorded for the type `name`: one of its occurrences in
    /// the flows; `None` when no type of that name occurs.
    pub fn type_definition(&self, name: &str) -> (r: Option<&Type>)
        ensures
            r is None <==> !type_occurs(self.flows(), name@),
            r matches Some(t) ==> t.name@ == name@ && occurs(self.flows(), t@),
    {
        proof {
            use_type_invariant(self);
        }
        let wanted = name.to_owned();
        let mut i: usize = 0;
        while i < self.types.len()
            invariant
                i <= self.types@.len(),
                wanted@ == name@,
                forall|j: int| 0 <= j < i ==> self.types@[j].name@ != name@,
            decreases self.types.len() - i,
        {
            if self.types[i].name == wanted {
                proof {
                    use_type_invariant(self);
                    let t = self.types@[i as int];
                    assert(occurs(self.flows(), t@));
                    let (f, k) = choose|f: int, k: int|
                        0 <= f < self.flows().len() && 0 <= k < self.flows()[f].len()
                            && #[trigger] self.flows()[f][k] == t@;
                    assert(is_type_named(self.flows()[f][k], name@));
                }
                return Some(&self.types[i]);
            }
            i = i + 1;
        }
        proof {
            use_type_invariant(self);
            let fs = self.flows();
            if type_occurs(fs, name@) {
                let (f, k) = choose|f: int, k: int|
                    0 <= f < fs.len() && 0 <= k < fs[f].len() && is_type_named(
                        #[trigger] fs[f][k],
                        name@,
                    );
                assert(type_listed(self.types@, fs[f][k]->Type_name));
            }
        }
        None
    }

    /// The distinct names of the type variables that occur in the flows.
    pub fn type_var_names(&self) -> (r: Vec<String>)
        ensures
            forall|i: int, j: int| 0 <= i < j < r@.len() ==> r@[i]@ != r@[j]@,
            forall|n: Seq<char>|
                (exists|i: int| 0 <= i < r@.len() && (#[trigger] r@[i])@ == n) <==> has_occurrence(
                    self.flows(),
                    n,
                ),
    {
        proof {
            use_type_invariant(self);
        }
        let mut names: Vec<String> = Vec::new();
        let mut i: usize = 0;
        while i < self.type_vars.len()
            invariant
                i <= self.type_vars@.len(),
                names@.len() == i,
                forall|j: int| 0 <= j < i ==> (#[trigger] names@[j])@ == self.type_vars@[j].0@,
            decreases self.type_vars.len() - i,
        {
            names.push(self.type_vars[i].0.clone());
            i = i + 1;
        }
        proof {
            use_type_invariant(self);
            let fs = self.flows();
            assert forall|a: int, b: int| 0 <= a < b < names@.len() implies names@[a]@
                != names@[b]@ by {
                assert(names@[a]@ == self.type_vars@[a].0@);
                assert(names@[b]@ == self.type_vars@[b].0@);
            }
            assert forall|n: Seq<char>|
                (exists|i: int| 0 <= i < names@.len() && (#[trigger] names@[i])@ == n)
                    <==> has_occurrence(fs, n) by {
                if exists|i: int| 0 <= i < names@.len() && (#[trigger] names@[i])@ == n {
                    let i = choose|i: int| 0 <= i < names@.len() && (#[trigger] names@[i])@ == n;
                    assert(has_occurrence(fs, self.type_vars@[i].0@));
                }
                if has_occurrence(fs, n) {
                    let f = choose|f: int| 0 <= f < fs.len() && has_type_var(#[trigger] fs[f], n);
                    let k = choose|k: int|
                        0 <= k < fs[f].len() && is_type_var_named(#[trigger] fs[f][k], n);
                    assert(var_listed(self.type_vars@, fs[f][k]->TypeVar_name));
                    let i = choose|i: int|
                        0 <= i < self.type_vars@.len() && (#[trigger] self.type_vars@[i]).0@ == n;
                    assert(names@[i]@ == n);
                }
            }
        }
        names
    }

    /// How many flows of the database hold a type variable named `typevar_name`.
    pub fn count_typevar_flows(&self, typevar_name: &str) -> (r: usize)
        ensures
            r == degree(self.flows(), typevar_name@),
    {
        let name = typevar_name.to_owned();
        count_flows_with_type_var(&self.data_flows, &name)
    }
}

/// The flows of `fs` that `q` matches, in their order, in a database of `flows`.
pub open spec fn matching_flows(
    flows: Seq<Seq<Token>>,
    fs: Seq<Seq<Token>>,
    q: Seq<Predicate>,
) -> Seq<Seq<Token>>
    decreases fs.len(),
{
    if fs.len() == 0 {
        Seq::empty()
    } else {
        let before = matching_flows(flows, fs.drop_last(), q);
        if flow_matches(flows, fs.last(), q) {
            before.push(fs.last())
        } else {
            before
        }
    }
}

/// The flows of `db` that `query` matches, in the database's order; none when
/// no flow matches.
pub fn search_dataflows<'a>(db: &'a Database, query: &'a [QueryOps]) -> (r: Vec<&'a DataFlow>)
    ensures
        r@.map_values(|f: &DataFlow| flow_view(f@)) == matching_flows(
            db.flows(),
            db.flows(),
            query_view(query@),
        ),
{
    let ghost fs = db.flows();
    let ghost q = query_view(query@);
    let mut found: Vec<&'a DataFlow> = Vec::new();
    let mut i: usize = 0;
    while i < db.data_flows.len()
        invariant
            i <= db.data_flows@.len(),
            fs == db.flows(),
            fs == flows_view(db.data_flows@),
            q == query_view(query@),
            found@.map_values(|f: &DataFlow| flow_view(f@)) == matching_flows(
                fs,
                fs.take(i as int),
                q,
            ),
        decreases db.data_flows.len() - i,
    {
        let flow = &db.data_flows[i];
        assert(fs.take(i + 1).drop_last() =~= fs.take(i as int));
        assert(fs.take(i + 1).last() == flow_view(flow@));
        let ghost prev = found@;
        if db.match_flow(flow.as_slice(), query) {
            found.push(flow);
            assert(found@.map_values(|f: &DataFlow| flow_view(f@)) =~= prev.map_values(
                |f: &DataFlow| flow_view(f@),
            ).push(flow_view(flow@)));
        }
        i = i + 1;
    }
    assert(fs.take(i as int) =~= fs);
    found
}

} // verus!
