//! Compilation of SQL templates: every `${name}` becomes a positional
//! marker `$1`, `$2`, ... and `name` is recorded in the same order.

use crate::text::{chars_of, decimal, push_char, push_decimal, text_of, texts};
use crate::text_map::{lookup, TextMap};
use vstd::prelude::*;

verus! {

/// Position of the first `}` in `s`, or -1.
pub open spec fn close_index(s: Seq<char>) -> int
    decreases s.len(),
{
    if s.len() == 0 {
        -1
    } else if s[0] == '}' {
        0
    } else {
        let r = close_index(s.drop_first());
        if r < 0 {
            -1
        } else {
            r + 1
        }
    }
}

/// `s` starts with `${`.
pub open spec fn opens_block(s: Seq<char>) -> bool {
    s.len() >= 2 && s[0] == '$' && s[1] == '{'
}

/// The positional marker number `k`.
pub open spec fn marker(k: nat) -> Seq<char> {
    seq!['$'] + decimal(k)
}

/// The compiled text and the variable names of `s`, its markers numbered
/// from `k`; `None` when a `${` is never closed.
pub open spec fn compile_from(s: Seq<char>, k: nat) -> Option<(Seq<char>, Seq<Seq<char>>)>
    decreases s.len(),
{
    if s.len() == 0 {
        Some((Seq::empty(), Seq::empty()))
    } else if opens_block(s) {
        let j = close_index(s);
        if 0 <= j < s.len() {
            match compile_from(s.subrange(j + 1, s.len() as int), k + 1) {
                Some(r) => Some((marker(k) + r.0, seq![s.subrange(2, j)] + r.1)),
                None => None,
            }
        } else {
            None
        }
    } else {
        match compile_from(s.drop_first(), k) {
            Some(r) => Some((seq![s[0]] + r.0, r.1)),
            None => None,
        }
    }
}

/// The compiled text and the variable names of a template.
pub open spec fn compile(s: Seq<char>) -> Option<(Seq<char>, Seq<Seq<char>>)> {
    compile_from(s, 1)
}

/// `done` followed by what `rest` compiles to.
pub open spec fn after(
    done: (Seq<char>, Seq<Seq<char>>),
    rest: Option<(Seq<char>, Seq<Seq<char>>)>,
) -> Option<(Seq<char>, Seq<Seq<char>>)> {
    match rest {
        Some(r) => Some((done.0 + r.0, done.1 + r.1)),
        None => None,
    }
}

/// The values bound to `vars`, looked up in `data`; `None` when one is missing.
pub open spec fn bound_values(data: Seq<(Seq<char>, Seq<char>)>, vars: Seq<Seq<char>>) -> Option<
    Seq<Seq<char>>,
> {
    if forall|i: int| 0 <= i < vars.len() ==> (#[trigger] lookup(data, vars[i])) is Some {
        Some(Seq::new(vars.len(), |i: int| lookup(data, vars[i])->0))
    } else {
        None
    }
}

/// The ways compilation fails.
#[derive(Debug, Clone, PartialEq, Eq)]
pub enum CompileError {
    /// A `${` that no `}` follows.
    UnterminatedVariableBlock,
}

impl CompileError {
    pub fn to_string(&self) -> (r: String)
        ensures
            r@ == "Variable block not closed"@,
    {
        text_of("Variable block not closed")
    }
}

/// A compiled template: SQL with positional markers and the variable name
/// of each marker, in order.
pub struct SqlWithVariables {
    pub sql: String,
    pub variables: Vec<String>,
}

proof fn lemma_close_found(s: Seq<char>, m: int)
    requires
        0 <= m < s.len(),
        s[m] == '}',
        forall|q: int| 0 <= q < m ==> s[q] != '}',
    ensures
        close_index(s) == m,
    decreases m,
{
    if m > 0 {
        assert forall|q: int| 0 <= q < m - 1 implies s.drop_first()[q] != '}' by {
            assert(s.drop_first()[q] == s[q + 1]);
        }
        lemma_close_found(s.drop_first(), m - 1);
    }
}

proof fn lemma_close_range(s: Seq<char>)
    ensures
        -1 <= close_index(s) < s.len(),
        close_index(s) >= 0 ==> s[close_index(s)] == '}',
    decreases s.len(),
{
    if s.len() > 0 {
        lemma_close_range(s.drop_first());
        if close_index(s.drop_first()) >= 0 {
            assert(s[close_index(s.drop_first()) + 1] == s.drop_first()[close_index(
                s.drop_first(),
            )]);
        }
    }
}

proof fn lemma_close_missing(s: Seq<char>)
    requires
        forall|q: int| 0 <= q < s.len() ==> s[q] != '}',
    ensures
        close_index(s) == -1,
    decreases s.len(),
{
    if s.len() > 0 {
        assert forall|q: int| 0 <= q < s.len() - 1 implies s.drop_first()[q] != '}' by {
            assert(s.drop_first()[q] == s[q + 1]);
        }
        lemma_close_missing(s.drop_first());
    }
}

/// The block `${name}`.
pub open spec fn block(name: Seq<char>) -> Seq<char> {
    seq!['$', '{'] + name + seq!['}']
}

/// The template `texts[0] ${names[0]} texts[1] ... texts[n]`.
pub open spec fn template_of(texts: Seq<Seq<char>>, names: Seq<Seq<char>>) -> Seq<char>
    decreases names.len(),
{
    if names.len() == 0 || texts.len() == 0 {
        if texts.len() == 0 {
            Seq::empty()
        } else {
            texts[0]
        }
    } else {
        texts[0] + block(names[0]) + template_of(texts.drop_first(), names.drop_first())
    }
}

/// `texts` joined by the markers `$k`, `$k+1`, ...
pub open spec fn marked_text(texts: Seq<Seq<char>>, k: nat) -> Seq<char>
    decreases texts.len(),
{
    if texts.len() <= 1 {
        if texts.len() == 0 {
            Seq::empty()
        } else {
            texts[0]
        }
    } else {
        texts[0] + marker(k) + marked_text(texts.drop_first(), k + 1)
    }
}

proof fn lemma_plain_prefix(t: Seq<char>, rest: Seq<char>, k: nat)
    requires
        !t.contains('$'),
    ensures
        compile_from(t + rest, k) == after((t, Seq::empty()), compile_from(rest, k)),
    decreases t.len(),
{
    if t.len() == 0 {
        assert(t + rest =~= rest);
        match compile_from(rest, k) {
            Some(r) => {
                assert(t + r.0 =~= r.0);
                assert(Seq::<Seq<char>>::empty() + r.1 =~= r.1);
            },
            None => {},
        }
    } else {
        let s = t + rest;
        assert(s[0] == t[0]);
        assert(t[0] != '$') by {
            assert(t.contains(t[0]) ==> t[0] != '$');
        }
        assert(s.drop_first() =~= t.drop_first() + rest);
        assert(!t.drop_first().contains('$')) by {
            if t.drop_first().contains('$') {
                let q = choose|q: int| 0 <= q < t.drop_first().len() && t.drop_first()[q] == '$';
                assert(t[q + 1] == '$');
            }
        }
        lemma_plain_prefix(t.drop_first(), rest, k);
        match compile_from(rest, k) {
            Some(r) => {
                assert(seq![t[0]] + (t.drop_first() + r.0) =~= t + r.0);
            },
            None => {},
        }
    }
}

proof fn lemma_block(name: Seq<char>, rest: Seq<char>, k: nat)
    requires
        !name.contains('}'),
    ensures
        compile_from(block(name) + rest, k) == after(
            (marker(k), seq![name]),
            compile_from(rest, k + 1),
        ),
{
    let s = block(name) + rest;
    let j = name.len() + 2int;
    assert(s[0] == '$' && s[1] == '{' && s[j] == '}');
    assert forall|q: int| 0 <= q < j implies s[q] != '}' by {
        if 2 <= q {
            assert(s[q] == name[q - 2]);
            assert(name.contains(name[q - 2]));
        }
    }
    lemma_close_found(s, j);
    assert(s.subrange(j + 1, s.len() as int) =~= rest);
    assert(s.subrange(2, j) =~= name);
}

/// A template made of texts without `$` and of blocks `${name}` whose names
/// hold no `}` compiles to the texts joined by `$1`, `$2`, ..., and to the
/// names in order, repeated names included.
pub proof fn lemma_compile_well_formed(texts: Seq<Seq<char>>, names: Seq<Seq<char>>)
    requires
        texts.len() == names.len() + 1,
        forall|i: int| 0 <= i < texts.len() ==> !(#[trigger] texts[i]).contains('$'),
        forall|i: int| 0 <= i < names.len() ==> !(#[trigger] names[i]).contains('}'),
    ensures
        compile(template_of(texts, names)) == Some((marked_text(texts, 1), names)),
{
    lemma_compile_pieces(texts, names, 1);
}

proof fn lemma_compile_pieces(texts: Seq<Seq<char>>, names: Seq<Seq<char>>, k: nat)
    requires
        texts.len() == names.len() + 1,
        forall|i: int| 0 <= i < texts.len() ==> !(#[trigger] texts[i]).contains('$'),
        forall|i: int| 0 <= i < names.len() ==> !(#[trigger] names[i]).contains('}'),
    ensures
        compile_from(template_of(texts, names), k) == Some((marked_text(texts, k), names)),
    decreases names.len(),
{
    if names.len() == 0 {
        lemma_plain_prefix(texts[0], Seq::empty(), k);
        assert(texts[0] + Seq::<char>::empty() =~= texts[0]);
        assert(texts[0] + Seq::<char>::empty() =~= texts[0]);
        assert(Seq::<Seq<char>>::empty() + Seq::<Seq<char>>::empty() =~= names);
    } else {
        let t2 = texts.drop_first();
        let n2 = names.drop_first();
        assert forall|i: int| 0 <= i < t2.len() implies !(#[trigger] t2[i]).contains('$') by {
            assert(t2[i] == texts[i + 1]);
        }
        assert forall|i: int| 0 <= i < n2.len() implies !(#[trigger] n2[i]).contains('}') by {
            assert(n2[i] == names[i + 1]);
        }
        lemma_compile_pieces(t2, n2, k + 1);
        let rest = template_of(t2, n2);
        assert(!texts[0].contains('$'));
        assert(!names[0].contains('}'));
        lemma_block(names[0], rest, k);
        assert(texts[0] + block(names[0]) + rest =~= texts[0] + (block(names[0]) + rest));
        lemma_plain_prefix(texts[0], block(names[0]) + rest, k);
        assert(texts[0] + (marker(k) + marked_text(t2, k + 1)) =~= marked_text(texts, k));
        assert(Seq::<Seq<char>>::empty() + (seq![names[0]] + n2) =~= names);
    }
}

/// A template whose last `${` is never closed does not compile, whatever
/// precedes it.
pub proof fn lemma_unterminated_fails(prefix: Seq<char>, tail: Seq<char>)
    requires
        !tail.contains('}'),
    ensures
        compile(prefix + seq!['$', '{'] + tail) is None,
{
    lemma_unterminated_from(prefix, tail, 1);
}

proof fn lemma_unterminated_from(prefix: Seq<char>, tail: Seq<char>, k: nat)
    requires
        !tail.contains('}'),
    ensures
        compile_from(prefix + seq!['$', '{'] + tail, k) is None,
    decreases prefix.len(),
{
    let s = prefix + seq!['$', '{'] + tail;
    let p = prefix.len();
    assert forall|q: int| p <= q < s.len() implies s[q] != '}' by {
        if q >= p + 2 {
            assert(s[q] == tail[q - p - 2]);
            assert(tail.contains(tail[q - p - 2]));
        }
    }
    if opens_block(s) {
        lemma_close_range(s);
        let j = close_index(s);
        if 0 <= j < s.len() {
            assert(j < p);
            assert(s.subrange(j + 1, s.len() as int) =~= prefix.subrange(j + 1, p as int) + seq![
                '$',
                '{',
            ] + tail);
            lemma_unterminated_from(prefix.subrange(j + 1, p as int), tail, k + 1);
        }
    } else {
        if p == 0 {
            assert(opens_block(s));
        } else {
            assert(s.drop_first() =~= prefix.drop_first() + seq!['$', '{'] + tail);
            lemma_unterminated_from(prefix.drop_first(), tail, k);
        }
    }
}

impl SqlWithVariables {
    /// Compiles `sql`: each `${name}` becomes `$k`, `k` counting from 1 over
    /// the whole template, and `name` is appended to the variables; every
    /// other character is copied. A `${` without a closing `}` is an error.
    pub fn from_sql(sql: &str) -> (r: Result<SqlWithVariables, CompileError>)
        ensures
            match r {
                Ok(c) => compile(sql@) == Some((c.sql@, texts(c.variables@))),
                Err(e) => compile(sql@) is None && e == CompileError::UnterminatedVariableBlock,
            },
    {
        let cs = chars_of(sql);
        let n = cs.len();
        let mut out = String::new();
        let mut variables: Vec<String> = Vec::new();
        let mut k: usize = 1;
        let mut i: usize = 0;
        proof {
            assert(cs@.subrange(0, n as int) =~= cs@);
            assert(after((out@, texts(variables@)), compile_from(cs@, 1)) =~= compile_from(cs@, 1))
                by {
                assert(out@ == Seq::<char>::empty());
                assert(texts(variables@) =~= Seq::<Seq<char>>::empty());
                match compile_from(cs@, 1) {
                    Some(p) => {
                        assert(out@ + p.0 =~= p.0);
                        assert(texts(variables@) + p.1 =~= p.1);
                    },
                    None => {},
                }
            }
        }
        while i < n
            invariant
                n == cs@.len(),
                cs@ == sql@,
                i <= n,
                1 <= k <= i + 1,
                compile(sql@) == after(
                    (out@, texts(variables@)),
                    compile_from(cs@.subrange(i as int, n as int), k as nat),
                ),
            decreases n - i,
        {
            let ghost t = cs@.subrange(i as int, n as int);
            let ghost o = out@;
            let ghost vs = texts(variables@);
            if i + 1 < n && cs[i] == '$' && cs[i + 1] == '{' {
                assert(opens_block(t));
                let mut j: usize = i + 2;
                while j < n && cs[j] != '}'
                    invariant
                        n == cs@.len(),
                        i + 2 <= j <= n,
                        forall|q: int| i + 2 <= q < j ==> cs@[q] != '}',
                    decreases n - j,
                {
                    j += 1;
                }
                if j == n {
                    proof {
                        assert forall|q: int| 0 <= q < t.len() implies t[q] != '}' by {
                            assert(t[q] == cs@[i + q]);
                        }
                        lemma_close_missing(t);
                    }
                    return Err(CompileError::UnterminatedVariableBlock);
                }
                proof {
                    assert forall|q: int| 0 <= q < j - i implies t[q] != '}' by {
                        assert(t[q] == cs@[i + q]);
                    }
                    lemma_close_found(t, j - i);
                    assert(t.subrange(j - i + 1, t.len() as int) =~= cs@.subrange(
                        j + 1,
                        n as int,
                    ));
                    assert(t.subrange(2, j - i) =~= cs@.subrange(i + 2, j as int));
                }
                let name = text_of(sql.substring_char(i + 2, j));
                variables.push(name);
                push_char(&mut out, '$');
                push_decimal(&mut out, k as u64);
                proof {
                    assert(texts(variables@) =~= vs.push(cs@.subrange(i + 2, j as int)));
                    assert(out@ =~= o + marker(k as nat));
                    match compile_from(cs@.subrange(j + 1, n as int), (k + 1) as nat) {
                        Some(r) => {
                            assert(o + (marker(k as nat) + r.0) =~= out@ + r.0);
                            assert(vs + (seq![cs@.subrange(i + 2, j as int)] + r.1)
                                =~= texts(variables@) + r.1);
                        },
                        None => {},
                    }
                }
                k = k + 1;
                i = j + 1;
            } else {
                proof {
                    assert(!opens_block(t));
                    assert(t.drop_first() =~= cs@.subrange(i + 1, n as int));
                }
                push_char(&mut out, cs[i]);
                proof {
                    match compile_from(cs@.subrange(i + 1, n as int), k as nat) {
                        Some(r) => {
                            assert(o + (seq![t[0]] + r.0) =~= out@ + r.0);
                        },
                        None => {},
                    }
                }
                i = i + 1;
            }
        }
        proof {
            assert(cs@.subrange(n as int, n as int) =~= Seq::<char>::empty());
            assert(out@ + Seq::<char>::empty() =~= out@);
            assert(texts(variables@) + Seq::<Seq<char>>::empty() =~= texts(variables@));
        }
        Ok(SqlWithVariables { sql: out, variables })
    }

    /// The value of each variable in `data`, in marker order; `None` when a
    /// variable has no value there.
    pub fn get_bind_vec<'a>(&self, data: &'a TextMap) -> (r: Option<Vec<&'a str>>)
        ensures
            match r {
                Some(v) => bound_values(data@, texts(self.variables@)) == Some(
                    v@.map_values(|s: &str| s@),
                ),
                None => bound_values(data@, texts(self.variables@)) is None,
            },
    {
        let n = self.variables.len();
        let ghost vars = texts(self.variables@);
        let mut result: Vec<&'a str> = Vec::new();
        let mut i: usize = 0;
        while i < n
            invariant
                n == self.variables@.len(),
                vars == texts(self.variables@),
                i <= n,
                result@.len() == i,
                forall|q: int| 0 <= q < i ==> lookup(data@, vars[q]) == Some(#[trigger] result@[q]@),
            decreases n - i,
        {
            match data.get(self.variables[i].as_str()) {
                Some(v) => {
                    result.push(v.as_str());
                },
                None => {
                    assert(lookup(data@, vars[i as int]) is None);
                    return None;
                },
            }
            i += 1;
        }
        assert(bound_values(data@, vars) == Some(result@.map_values(|s: &str| s@))) by {
            assert(vars.len() == n);
            assert forall|q: int| 0 <= q < vars.len() implies (#[trigger] lookup(
                data@,
                vars[q],
            )) is Some by {
                assert(lookup(data@, vars[q]) == Some(result@[q]@));
            }
            assert(Seq::new(vars.len(), |q: int| lookup(data@, vars[q])->0) =~= result@.map_values(
                |s: &str| s@,
            ));
        }
        Some(result)
    }
}

} // verus!
