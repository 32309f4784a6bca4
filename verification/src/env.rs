//! Environments: the names bound in a scope, the scope around it, and the
//! modules loaded so far.
use vstd::prelude::*;
use crate::expr::{Builtin, Expr, Val};
use crate::modules::Module;
use crate::text::{same_text, text_le};
use itertools::Itertools;

verus! {

/// The map that a list of (name, value) entries stands for; a later entry
/// for a name wins over an earlier one.
pub open spec fn map_of(s: Seq<(String, Expr)>) -> Map<Seq<char>, Val>
    decreases s.len(),
{
    if s.len() == 0 {
        Map::empty()
    } else {
        map_of(s.drop_last()).insert(s.last().0@, s.last().1@)
    }
}

/// No name has two entries.
pub open spec fn keys_unique(s: Seq<(String, Expr)>) -> bool {
    forall|i: int, j: int| 0 <= i < s.len() && 0 <= j < s.len() && i != j ==> (#[trigger] s[i]).0@ != (
    #[trigger] s[j]).0@
}

/// With no name entered twice, a name is in the map exactly when it has an
/// entry, and it maps to that entry's value.
proof fn lemma_map_of_keys(s: Seq<(String, Expr)>, k: Seq<char>)
    requires
        keys_unique(s),
    ensures
        map_of(s).contains_key(k) == exists|i: int| 0 <= i < s.len() && (#[trigger] s[i]).0@ == k,
        forall|i: int| 0 <= i < s.len() && (#[trigger] s[i]).0@ == k ==> map_of(s)[k] == s[i].1@,
    decreases s.len(),
{
    if s.len() > 0 {
        let t = s.drop_last();
        assert(keys_unique(t));
        lemma_map_of_keys(t, k);
        if map_of(s).contains_key(k) {
            if s.last().0@ == k {
                assert(s[s.len() - 1].0@ == k);
            } else {
                let i = choose|i: int| 0 <= i < t.len() && (#[trigger] t[i]).0@ == k;
                assert(s[i] == t[i]);
            }
        }
        if exists|i: int| 0 <= i < s.len() && (#[trigger] s[i]).0@ == k {
            let i = choose|i: int| 0 <= i < s.len() && (#[trigger] s[i]).0@ == k;
            if i < s.len() - 1 {
                assert(t[i] == s[i]);
            }
        }
        assert forall|i: int| 0 <= i < s.len() && (#[trigger] s[i]).0@ == k implies map_of(s)[k] == s[i].1@ by {
            if i < s.len() - 1 {
                assert(s[i] == t[i]);
            }
        }
    }
}

/// Overwriting the entry of a name keeps names unique and rebinds that name.
proof fn lemma_map_of_update(s: Seq<(String, Expr)>, i: int, key: String, value: Expr)
    requires
        keys_unique(s),
        0 <= i < s.len(),
        s[i].0@ == key@,
    ensures
        keys_unique(s.update(i, (key, value))),
        map_of(s.update(i, (key, value))) == map_of(s).insert(key@, value@),
    decreases s.len(),
{
    let u = s.update(i, (key, value));
    assert forall|a: int, b: int| 0 <= a < u.len() && 0 <= b < u.len() && a != b implies (#[trigger] u[a]).0@ != (
    #[trigger] u[b]).0@ by {
        if a != i && b != i {
            assert(u[a] == s[a] && u[b] == s[b]);
        } else if a == i {
            assert(u[b] == s[b]);
            assert(s[a].0@ != s[b].0@);
        } else {
            assert(u[a] == s[a]);
            assert(s[a].0@ != s[b].0@);
        }
    }
    if i == s.len() - 1 {
        assert(u.drop_last() =~= s.drop_last());
    } else {
        let t = s.drop_last();
        assert(keys_unique(t));
        lemma_map_of_update(t, i, key, value);
        assert(u.drop_last() =~= t.update(i, (key, value)));
        assert(s.last().0@ != key@) by {
            assert(s[s.len() - 1].0@ != s[i].0@);
        }
        assert(map_of(u) =~= map_of(s).insert(key@, value@));
    }
}

/// The names bound in one scope, each to one value.
pub struct Bindings {
    entries: Vec<(String, Expr)>,
}

impl View for Bindings {
    type V = Map<Seq<char>, Val>;

    closed spec fn view(&self) -> Map<Seq<char>, Val> {
        map_of(self.entries@)
    }
}

impl Bindings {
    #[verifier::type_invariant]
    closed spec fn unique(&self) -> bool {
        keys_unique(self.entries@)
    }

    /// No names bound.
    pub fn new() -> (r: Bindings)
        ensures
            r@ == Map::<Seq<char>, Val>::empty(),
    {
        Bindings { entries: Vec::new() }
    }

    /// Where `key` is bound, if it is.
    fn find(&self, key: &str) -> (r: Option<usize>)
        ensures
            match r {
                Some(i) => i < self.entries@.len() && self.entries@[i as int].0@ == key@,
                None => forall|i: int| 0 <= i < self.entries@.len() ==> (#[trigger] self.entries@[i]).0@ != key@,
            },
    {
        let mut i: usize = 0;
        while i < self.entries.len()
            invariant
                i <= self.entries@.len(),
                forall|j: int| 0 <= j < i ==> (#[trigger] self.entries@[j]).0@ != key@,
            decreases self.entries.len() - i,
        {
            if same_text(self.entries[i].0.as_str(), key) {
                return Some(i);
            }
            i = i + 1;
        }
        None
    }

    /// Whether `key` is bound.
    pub fn contains_key(&self, key: &str) -> (r: bool)
        ensures
            r == self@.contains_key(key@),
    {
        proof {
            use_type_invariant(self);
            lemma_map_of_keys(self.entries@, key@);
        }
        self.find(key).is_some()
    }

    /// A copy of the value bound to `key`, if it is bound.
    pub fn get(&self, key: &str) -> (r: Option<Expr>)
        ensures
            match r {
                Some(e) => self@.contains_key(key@) && e@ == self@[key@],
                None => !self@.contains_key(key@),
            },
    {
        proof {
            use_type_invariant(self);
            lemma_map_of_keys(self.entries@, key@);
        }
        match self.find(key) {
            Some(i) => Some(self.entries[i].1.copy()),
            None => None,
        }
    }

    /// Binds `key` to `value`, in place of any value it was bound to.
    pub fn insert(&mut self, key: String, value: Expr)
        ensures
            final(self)@ == old(self)@.insert(key@, value@),
    {
        proof {
            use_type_invariant(&*self);
        }
        match self.find(key.as_str()) {
            Some(i) => {
                proof {
                    lemma_map_of_update(self.entries@, i as int, key, value);
                }
                let mut entries = Vec::new();
                std::mem::swap(&mut entries, &mut self.entries);
                entries.set(i, (key, value));
                self.entries = entries;
            },
            None => {
                proof {
                    assert(self.entries@.push((key, value)).drop_last() =~= self.entries@);
                }
                let mut entries = Vec::new();
                std::mem::swap(&mut entries, &mut self.entries);
                entries.push((key, value));
                self.entries = entries;
            },
        }
    }

    /// The bound names, each once.
    pub fn keys(&self) -> (r: Vec<String>)
        ensures
            forall|k: Seq<char>| self@.contains_key(k) <==> exists|i: int| 0 <= i < r@.len() && (#[trigger] r@[i])@ == k,
            forall|i: int, j: int| 0 <= i < r@.len() && 0 <= j < r@.len() && i != j ==> (#[trigger] r@[i])@ != (#[trigger] r@[j])@,
    {
        proof {
            use_type_invariant(self);
        }
        let mut out: Vec<String> = Vec::new();
        let mut i: usize = 0;
        while i < self.entries.len()
            invariant
                i <= self.entries@.len(),
                out@.len() == i,
                keys_unique(self.entries@),
                forall|j: int| 0 <= j < i ==> (#[trigger] out@[j])@ == self.entries@[j].0@,
            decreases self.entries.len() - i,
        {
            out.push(self.entries[i].0.clone());
            i = i + 1;
        }
        proof {
            assert forall|k: Seq<char>| self@.contains_key(k) <==> exists|i: int| 0 <= i < out@.len() && (#[trigger] out@[i])@ == k by {
                lemma_map_of_keys(self.entries@, k);
                if self@.contains_key(k) {
                    let i = choose|i: int| 0 <= i < self.entries@.len() && (#[trigger] self.entries@[i]).0@ == k;
                    assert(out@[i]@ == k);
                }
                if exists|i: int| 0 <= i < out@.len() && (#[trigger] out@[i])@ == k {
                    let i = choose|i: int| 0 <= i < out@.len() && (#[trigger] out@[i])@ == k;
                    assert(self.entries@[i].0@ == k);
                }
            }
            assert forall|a: int, b: int| 0 <= a < out@.len() && 0 <= b < out@.len() && a != b implies (#[trigger] out@[a])@ != (#[trigger] out@[b])@ by {
                assert(self.entries@[a].0@ != self.entries@[b].0@);
            }
        }
        out
    }
}

/// The texts of `names`.
pub open spec fn texts_of(names: Seq<String>) -> Seq<Seq<char>> {
    names.map_values(|s: String| s@)
}

/// `Itertools::sorted` on `names`, collected into a `Vec`: the same names, in
/// ascending order of `String`'s `Ord`, which orders texts by code point,
/// character by character.
#[verifier::external_body]
fn sort_names(names: Vec<String>) -> (r: Vec<String>)
    ensures
        texts_of(r@).to_multiset() == texts_of(names@).to_multiset(),
        forall|i: int, j: int| 0 <= i < j < r@.len() ==> text_le(#[trigger] r@[i]@, #[trigger] r@[j]@),
{
    names.into_iter().sorted().collect()
}

impl Bindings {
    /// The bound names, each once, in ascending order.
    pub fn sorted_keys(&self) -> (r: Vec<String>)
        ensures
            forall|k: Seq<char>| self@.contains_key(k) <==> exists|i: int| 0 <= i < r@.len() && (#[trigger] r@[i])@ == k,
            forall|i: int, j: int| 0 <= i < j < r@.len() ==> text_le(#[trigger] r@[i]@, #[trigger] r@[j]@)
                && r@[i]@ != r@[j]@,
    {
        broadcast use vstd::seq_lib::group_to_multiset_ensures;
        let names = self.keys();
        let r = sort_names(names);
        proof {
            let vs = texts_of(names@);
            let rs = texts_of(r@);
            assert(vs.no_duplicates()) by {
                assert forall|i: int, j: int| 0 <= i < vs.len() && 0 <= j < vs.len() && i != j implies vs[i] != vs[j] by {
                    assert(vs[i] == names@[i]@ && vs[j] == names@[j]@);
                }
            }
            vs.lemma_multiset_has_no_duplicates();
            rs.lemma_multiset_has_no_duplicates_conv();
            assert forall|k: Seq<char>| self@.contains_key(k) <==> exists|i: int| 0 <= i < r@.len() && (#[trigger] r@[i])@ == k by {
                if self@.contains_key(k) {
                    let i = choose|i: int| 0 <= i < names@.len() && (#[trigger] names@[i])@ == k;
                    assert(vs[i] == k);
                    assert(vs.contains(k));
                    assert(vs.to_multiset().count(k) > 0);
                    assert(rs.to_multiset().count(k) > 0);
                    assert(rs.contains(k));
                    let j = choose|j: int| 0 <= j < rs.len() && rs[j] == k;
                    assert(r@[j]@ == k);
                }
                if exists|i: int| 0 <= i < r@.len() && (#[trigger] r@[i])@ == k {
                    let j = choose|j: int| 0 <= j < r@.len() && (#[trigger] r@[j])@ == k;
                    assert(rs[j] == k);
                    assert(rs.contains(k));
                    assert(rs.to_multiset().count(k) > 0);
                    assert(vs.to_multiset().count(k) > 0);
                    assert(vs.contains(k));
                    let i = choose|i: int| 0 <= i < vs.len() && vs[i] == k;
                    assert(names@[i]@ == k);
                }
            }
            assert forall|i: int, j: int| 0 <= i < j < r@.len() implies r@[i]@ != r@[j]@ by {
                assert(rs[i] == r@[i]@ && rs[j] == r@[j]@);
            }
        }
        r
    }
}

/// A scope: the names bound in it, the scope around it, where modules are
/// searched for, and the modules loaded so far.
pub struct Env<'a> {
    pub ops: Bindings,
    pub parent_scope: Option<&'a Env<'a>>,
    pub search_path: Option<String>,
    pub loaded_modules: Vec<Module>,
}

/// The value that `key` stands for in `env`: its binding in the innermost scope that binds it.
pub open spec fn resolve(env: &Env, key: Seq<char>) -> Option<Val>
    decreases env,
{
    if env.ops@.contains_key(key) {
        Some(env.ops@[key])
    } else {
        match env.parent_scope {
            Some(p) => resolve(p, key),
            None => None,
        }
    }
}

/// Looks up `s`, from the innermost scope outwards.
pub fn env_get(s: &str, env: &Env) -> (r: Option<Expr>)
    ensures
        match r {
            Some(e) => resolve(env, s@) == Some(e@),
            None => resolve(env, s@) is None,
        },
    decreases env,
{
    match env.ops.get(s) {
        Some(expr) => Some(expr),
        None => match env.parent_scope {
            Some(outer) => env_get(s, outer),
            None => None,
        },
    }
}

/// The names that the global environment binds, and the procedures they stand for.
pub open spec fn global_ops() -> Map<Seq<char>, Val> {
    Map::empty().insert("+"@, Val::Func(Builtin::Add)).insert("-"@, Val::Func(Builtin::Sub)).insert(
        "*"@,
        Val::Func(Builtin::Mul),
    ).insert("/"@, Val::Func(Builtin::Div)).insert("empty?"@, Val::Func(Builtin::IsEmpty)).insert(
        "length"@,
        Val::Func(Builtin::Length),
    ).insert("="@, Val::Func(Builtin::NumEq)).insert(">"@, Val::Func(Builtin::Greater)).insert(
        "<"@,
        Val::Func(Builtin::Less),
    ).insert(">="@, Val::Func(Builtin::GreaterEq)).insert("<="@, Val::Func(Builtin::LessEq)).insert(
        "display"@,
        Val::Func(Builtin::Display),
    ).insert("cons"@, Val::Func(Builtin::Cons)).insert("car"@, Val::Func(Builtin::Car)).insert(
        "cdr"@,
        Val::Func(Builtin::Cdr),
    ).insert("list"@, Val::Func(Builtin::List)).insert("flip"@, Val::Func(Builtin::Flip)).insert(
        "reverse"@,
        Val::Func(Builtin::Reverse),
    ).insert("first"@, Val::Func(Builtin::Car)).insert("rest"@, Val::Func(Builtin::Cdr))
}

/// Binds the name `name` to the builtin `b`.
fn bind_builtin(ops: &mut Bindings, name: &str, b: Builtin)
    ensures
        final(ops)@ == old(ops)@.insert(name@, Val::Func(b)),
{
    broadcast use vstd::string::group_string_axioms;
    ops.insert(name.to_string(), Expr::Func(b));
}

/// The global environment: the arithmetic, comparison, list and display procedures.
pub fn mk_env<'a>() -> (r: Env<'a>)
    ensures
        r.ops@ == global_ops(),
        r.parent_scope is None,
        r.search_path is None,
        r.loaded_modules@.len() == 0,
{
    let mut ops = Bindings::new();
    bind_builtin(&mut ops, "+", Builtin::Add);
    bind_builtin(&mut ops, "-", Builtin::Sub);
    bind_builtin(&mut ops, "*", Builtin::Mul);
    bind_builtin(&mut ops, "/", Builtin::Div);
    bind_builtin(&mut ops, "empty?", Builtin::IsEmpty);
    bind_builtin(&mut ops, "length", Builtin::Length);
    bind_builtin(&mut ops, "=", Builtin::NumEq);
    bind_builtin(&mut ops, ">", Builtin::Greater);
    bind_builtin(&mut ops, "<", Builtin::Less);
    bind_builtin(&mut ops, ">=", Builtin::GreaterEq);
    bind_builtin(&mut ops, "<=", Builtin::LessEq);
    bind_builtin(&mut ops, "display", Builtin::Display);
    bind_builtin(&mut ops, "cons", Builtin::Cons);
    bind_builtin(&mut ops, "car", Builtin::Car);
    bind_builtin(&mut ops, "cdr", Builtin::Cdr);
    bind_builtin(&mut ops, "list", Builtin::List);
    bind_builtin(&mut ops, "flip", Builtin::Flip);
    bind_builtin(&mut ops, "reverse", Builtin::Reverse);
    bind_builtin(&mut ops, "first", Builtin::Car);
    bind_builtin(&mut ops, "rest", Builtin::Cdr);
    Env { ops, parent_scope: None, search_path: None, loaded_modules: Vec::new() }
}

/// Binds the procedures of the module `sys`: `println`, `readln`, `die`, `exit`.
pub fn require_sys(env: &mut Env)
    ensures
        final(env).ops@ == old(env).ops@.insert("println"@, Val::Func(Builtin::Println)).insert(
            "readln"@,
            Val::Func(Builtin::Readln),
        ).insert("die"@, Val::Func(Builtin::Die)).insert("exit"@, Val::Func(Builtin::Exit)),
        final(env).parent_scope == old(env).parent_scope,
        final(env).search_path == old(env).search_path,
        final(env).loaded_modules == old(env).loaded_modules,
{
    bind_builtin(&mut env.ops, "println", Builtin::Println);
    bind_builtin(&mut env.ops, "readln", Builtin::Readln);
    bind_builtin(&mut env.ops, "die", Builtin::Die);
    bind_builtin(&mut env.ops, "exit", Builtin::Exit);
}

/// Binds the procedures of the module `unsafe`: `alloc-box`, `deref-box`.
pub fn require_unsafe(env: &mut Env)
    ensures
        final(env).ops@ == old(env).ops@.insert("alloc-box"@, Val::Func(Builtin::AllocBox)).insert(
            "deref-box"@,
            Val::Func(Builtin::DerefBox),
        ),
        final(env).parent_scope == old(env).parent_scope,
        final(env).search_path == old(env).search_path,
        final(env).loaded_modules == old(env).loaded_modules,
{
    bind_builtin(&mut env.ops, "alloc-box", Builtin::AllocBox);
    bind_builtin(&mut env.ops, "deref-box", Builtin::DerefBox);
}

/// Binds the procedure of the module `imperative/constructs`: `begin`.
pub fn require_imperative_constructs(env: &mut Env)
    ensures
        final(env).ops@ == old(env).ops@.insert("begin"@, Val::Func(Builtin::Begin)),
        final(env).parent_scope == old(env).parent_scope,
        final(env).search_path == old(env).search_path,
        final(env).loaded_modules == old(env).loaded_modules,
{
    bind_builtin(&mut env.ops, "begin", Builtin::Begin);
}

} // verus!
