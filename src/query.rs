//! The query language: predicates over single tokens, and the compiler from
//! query text to an ordered sequence of predicates.
use vstd::prelude::*;

use crate::text::{
    parse_usize, parse_usize_range, split_on, split_ranges, trim, trim_range,
};

verus! {

/// Match a constructor argument in a data flow by name.
#[derive(Debug, PartialEq, Eq)]
pub struct QConstructorArg {
    pub name: String,
    /// Optionally match on the index of the argument unified
    pub arg_index: Option<usize>,
    /// Optional description
    pub desc: Option<String>,
}

/// Match a type by name.
#[derive(Debug, PartialEq, Eq)]
pub struct QType {
    pub name: String,
    /// Optional description
    pub desc: Option<String>,
}

#[derive(Debug, PartialEq, Eq)]
pub enum QueryOps {
    /// Match a type variable by its in-degree
    QTypeVar(usize),
    /// Match a constructor argument by name
    QConstructorArg(QConstructorArg),
    /// Match a type by name
    QType(QType),
    /// Match any token by its description
    QDesc(String),
}

/// What a `QueryOps` value stands for, with its text as sequences of characters.
pub enum Predicate {
    ByTypeVarDegree(usize),
    ByConstructorArg { name: Seq<char>, arg_index: Option<usize>, desc: Option<Seq<char>> },
    ByType { name: Seq<char>, desc: Option<Seq<char>> },
    ByDescription(Seq<char>),
}

/// The text of an optional string.
pub open spec fn opt_text(o: Option<String>) -> Option<Seq<char>> {
    match o {
        Some(s) => Some(s@),
        None => None,
    }
}

impl View for QueryOps {
    type V = Predicate;

    open spec fn view(&self) -> Predicate {
        match self {
            QueryOps::QTypeVar(n) => Predicate::ByTypeVarDegree(*n),
            QueryOps::QConstructorArg(q) => Predicate::ByConstructorArg {
                name: q.name@,
                arg_index: q.arg_index,
                desc: opt_text(q.desc),
            },
            QueryOps::QType(q) => Predicate::ByType { name: q.name@, desc: opt_text(q.desc) },
            QueryOps::QDesc(d) => Predicate::ByDescription(d@),
        }
    }
}

/// The predicates that a sequence of `QueryOps` stands for.
pub open spec fn query_view(q: Seq<QueryOps>) -> Seq<Predicate> {
    q.map_values(|op: QueryOps| op@)
}

/// Why a field of query text does not compile.
#[derive(Debug, Clone, Copy, PartialEq, Eq, Structural)]
pub enum CompileErrorKind {
    /// `#` is not followed by an unsigned integer
    InvalidTypeVarCount,
    /// `@` is followed by more than one `.` or `:`
    InvalidConstructorArg,
    /// a type pattern holds more than one `:`
    InvalidType,
    /// no field holds anything but white space
    EmptyQuery,
}

impl CompileErrorKind {
    /// The reason, in words.
    pub open spec fn reason_text(self) -> Seq<char> {
        match self {
            CompileErrorKind::InvalidTypeVarCount => "invalid type-variable count"@,
            CompileErrorKind::InvalidConstructorArg => "invalid constructor-arg syntax"@,
            CompileErrorKind::InvalidType => "invalid type syntax"@,
            CompileErrorKind::EmptyQuery => "empty query"@,
        }
    }

    /// The reason, in words.
    pub fn reason(&self) -> (r: &'static str)
        ensures
            r@ == self.reason_text(),
    {
        match self {
            CompileErrorKind::InvalidTypeVarCount => "invalid type-variable count",
            CompileErrorKind::InvalidConstructorArg => "invalid constructor-arg syntax",
            CompileErrorKind::InvalidType => "invalid type syntax",
            CompileErrorKind::EmptyQuery => "empty query",
        }
    }
}

/// A query that does not compile: the reason, and the 1-based position of the
/// first offending comma-separated field (0 for an empty query, where no
/// single field is at fault).
#[derive(Debug, Clone, Copy, PartialEq, Eq, Structural)]
pub struct CompileError {
    pub kind: CompileErrorKind,
    pub field: usize,
}

/// The predicate that one trimmed, non-empty field of query text compiles to.
pub open spec fn compile_field(t: Seq<char>) -> Result<Predicate, CompileErrorKind> {
    if t.len() > 0 && t[0] == '#' {
        match parse_usize(t.skip(1)) {
            Some(n) => Ok(Predicate::ByTypeVarDegree(n)),
            None => Err(CompileErrorKind::InvalidTypeVarCount),
        }
    } else if t.len() > 0 && t[0] == '@' {
        let parts = split_on(t.skip(1), seq!['.', ':']);
        if parts.len() == 1 {
            Ok(Predicate::ByConstructorArg { name: parts[0], arg_index: None, desc: None })
        } else if parts.len() == 2 {
            match parse_usize(parts[1]) {
                Some(i) => Ok(
                    Predicate::ByConstructorArg { name: parts[0], arg_index: Some(i), desc: None },
                ),
                None => Ok(
                    Predicate::ByConstructorArg {
                        name: parts[0],
                        arg_index: None,
                        desc: Some(parts[1]),
                    },
                ),
            }
        } else {
            Err(CompileErrorKind::InvalidConstructorArg)
        }
    } else if t.len() >= 2 && t[0] == '"' && t.last() == '"' {
        Ok(Predicate::ByDescription(t.subrange(1, t.len() - 1)))
    } else {
        let parts = split_on(t, seq![':']);
        if parts.len() == 1 {
            Ok(Predicate::ByType { name: parts[0], desc: None })
        } else if parts.len() == 2 {
            Ok(Predicate::ByType { name: parts[0], desc: Some(parts[1]) })
        } else {
            Err(CompileErrorKind::InvalidType)
        }
    }
}

/// The predicates that the comma-separated `fields` compile to, left to right;
/// fields that are empty once trimmed are skipped, and the first field that
/// does not compile is reported with its 1-based position.
pub open spec fn compile_fields(fields: Seq<Seq<char>>) -> Result<Seq<Predicate>, CompileError>
    decreases fields.len(),
{
    if fields.len() == 0 {
        Ok(Seq::empty())
    } else {
        match compile_fields(fields.drop_last()) {
            Err(e) => Err(e),
            Ok(ps) => {
                let t = trim(fields.last());
                if t.len() == 0 {
                    Ok(ps)
                } else {
                    match compile_field(t) {
                        Ok(p) => Ok(ps.push(p)),
                        Err(kind) => Err(CompileError { kind, field: fields.len() as usize }),
                    }
                }
            },
        }
    }
}

/// What the query text `s` compiles to: a query holds at least one
/// predicate, so text whose fields are all blank is an error.
pub open spec fn compile(s: Seq<char>) -> Result<Seq<Predicate>, CompileError> {
    match compile_fields(split_on(s, seq![','])) {
        Ok(ps) => if ps.len() == 0 {
            Err(CompileError { kind: CompileErrorKind::EmptyQuery, field: 0 })
        } else {
            Ok(ps)
        },
        Err(e) => Err(e),
    }
}

/// The view of a compiler result.
pub open spec fn compiled_view(r: Result<Vec<QueryOps>, CompileError>) -> Result<
    Seq<Predicate>,
    CompileError,
> {
    match r {
        Ok(v) => Ok(query_view(v@)),
        Err(e) => Err(e),
    }
}

/// The text `s[a..b]` as a `String`.
fn text_of(s: &str, a: usize, b: usize) -> (r: String)
    requires
        a <= b <= s@.len(),
    ensures
        r@ == s@.subrange(a as int, b as int),
{
    s.substring_char(a, b).to_owned()
}

/// The view of the result of compiling one field.
pub open spec fn field_view(r: Result<QueryOps, CompileErrorKind>) -> Result<
    Predicate,
    CompileErrorKind,
> {
    match r {
        Ok(q) => Ok(q@),
        Err(k) => Err(k),
    }
}

impl QueryOps {
    /// Compiles the field `text[a..b]`, already trimmed and non-empty, whose
    /// characters are `cs[a..b]`.
    fn parse_token(text: &str, cs: &Vec<char>, a: usize, b: usize) -> (r: Result<
        QueryOps,
        CompileErrorKind,
    >)
        requires
            cs@ == text@,
            a < b <= cs.len(),
        ensures
            field_view(r) == compile_field(cs@.subrange(a as int, b as int)),
    {
        let ghost t = cs@.subrange(a as int, b as int);
        assert(t.skip(1) =~= cs@.subrange(a + 1, b as int));
        if cs[a] == '#' {
            match parse_usize_range(cs, a + 1, b) {
                Some(n) => Ok(QueryOps::QTypeVar(n)),
                None => Err(CompileErrorKind::InvalidTypeVarCount),
            }
        } else if cs[a] == '@' {
            let delims = ['.', ':'];
            let parts = split_ranges(cs, a + 1, b, delims.as_slice());
            assert(delims@ =~= seq!['.', ':']);
            if parts.len() == 1 {
                let name = text_of(text, parts[0].0, parts[0].1);
                Ok(
                    QueryOps::QConstructorArg(
                        QConstructorArg { name, arg_index: None, desc: None },
                    ),
                )
            } else if parts.len() == 2 {
                let name = text_of(text, parts[0].0, parts[0].1);
                match parse_usize_range(cs, parts[1].0, parts[1].1) {
                    Some(i) => Ok(
                        QueryOps::QConstructorArg(
                            QConstructorArg { name, arg_index: Some(i), desc: None },
                        ),
                    ),
                    None => {
                        let desc = text_of(text, parts[1].0, parts[1].1);
                        Ok(
                            QueryOps::QConstructorArg(
                                QConstructorArg { name, arg_index: None, desc: Some(desc) },
                            ),
                        )
                    },
                }
            } else {
                Err(CompileErrorKind::InvalidConstructorArg)
            }
        } else if b - a >= 2 && cs[a] == '"' && cs[b - 1] == '"' {
            assert(t.subrange(1, t.len() - 1) =~= cs@.subrange(a + 1, b - 1));
            Ok(QueryOps::QDesc(text_of(text, a + 1, b - 1)))
        } else {
            let delims = [':'];
            let parts = split_ranges(cs, a, b, delims.as_slice());
            assert(delims@ =~= seq![':']);
            if parts.len() == 1 {
                let name = text_of(text, parts[0].0, parts[0].1);
                Ok(QueryOps::QType(QType { name, desc: None }))
            } else if parts.len() == 2 {
                let name = text_of(text, parts[0].0, parts[0].1);
                let desc = text_of(text, parts[1].0, parts[1].1);
                Ok(QueryOps::QType(QType { name, desc: Some(desc) }))
            } else {
                Err(CompileErrorKind::InvalidType)
            }
        }
    }

    /// Compiles query text: comma-separated fields, each trimmed, empty ones
    /// skipped, each of the others compiled to one predicate.
    pub fn parse_query(input: &str) -> (r: Result<Vec<QueryOps>, CompileError>)
        ensures
            compiled_view(r) == compile(input@),
    {
        let cs = chars_of(input);
        let commas = [','];
        assert(commas@ =~= seq![',']);
        let fields = split_ranges(&cs, 0, cs.len(), commas.as_slice());
        let ghost all = split_on(cs@.subrange(0, cs@.len() as int), seq![',']);
        assert(cs@.subrange(0, cs@.len() as int) =~= input@);
        let mut ops: Vec<QueryOps> = Vec::new();
        let mut k: usize = 0;
        assert(all.take(0) =~= Seq::<Seq<char>>::empty());
        assert(query_view(ops@) =~= Seq::<Predicate>::empty());
        while k < fields.len()
            invariant
                cs@ == input@,
                all == split_on(input@, seq![',']),
                fields@.len() == all.len(),
                k <= fields@.len(),
                forall|j: int|
                    0 <= j < fields@.len() ==> {
                        &&& 0 <= (#[trigger] fields@[j]).0 <= fields@[j].1 <= cs@.len()
                        &&& cs@.subrange(fields@[j].0 as int, fields@[j].1 as int) == all[j]
                    },
                compile_fields(all.take(k as int)) == Ok::<Seq<Predicate>, CompileError>(
                    query_view(ops@),
                ),
            decreases fields.len() - k,
        {
            assert(all.take(k + 1).drop_last() =~= all.take(k as int));
            let (lo, hi) = fields[k];
            let (a, b) = trim_range(&cs, lo, hi);
            assert(all.take(k + 1).last() == all[k as int]);
            assert(trim(all[k as int]) == cs@.subrange(a as int, b as int));
            let ghost prev = ops@;
            if a < b {
                match QueryOps::parse_token(input, &cs, a, b) {
                    Ok(op) => {
                        ops.push(op);
                        assert(query_view(ops@) =~= query_view(prev).push(op@));
                        assert(compile_fields(all.take(k + 1)) == Ok::<Seq<Predicate>, CompileError>(
                            query_view(ops@),
                        ));
                    },
                    Err(kind) => {
                        let e = CompileError { kind, field: k + 1 };
                        proof {
                            lemma_compile_fields_error(all, k as int + 1);
                        }
                        return Err(e);
                    },
                }
            } else {
                assert(compile_fields(all.take(k + 1)) == Ok::<Seq<Predicate>, CompileError>(
                    query_view(ops@),
                ));
            }
            k = k + 1;
        }
        assert(all.take(k as int) =~= all);
        if ops.len() == 0 {
            return Err(CompileError { kind: CompileErrorKind::EmptyQuery, field: 0 });
        }
        Ok(ops)
    }
}

/// An error in a prefix of the fields is the error of all of them.
proof fn lemma_compile_fields_error(fields: Seq<Seq<char>>, n: int)
    requires
        0 <= n <= fields.len(),
        compile_fields(fields.take(n)) is Err,
    ensures
        compile_fields(fields) == compile_fields(fields.take(n)),
    decreases fields.len() - n,
{
    if n < fields.len() {
        assert(fields.take(n + 1).drop_last() =~= fields.take(n));
        lemma_compile_fields_error(fields, n + 1);
    } else {
        assert(fields.take(n) =~= fields);
    }
}

/// The characters of `s`, in order.
fn chars_of(s: &str) -> (r: Vec<char>)
    ensures
        r@ == s@,
{
    let mut cs: Vec<char> = Vec::new();
    for c in it: s.chars()
        invariant
            cs@ == it.seq().take(it.index() as int),
    {
        cs.push(c);
    }
    cs
}

} // verus!
