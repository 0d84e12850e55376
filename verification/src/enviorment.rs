use vstd::prelude::*;
use crate::object::{Callable, Object, ObjectModel};
use crate::token::str_equal;

verus! {

/// The variables of one scope, each name once.
pub open spec fn scope_map(bs: Seq<(String, Object)>) -> Map<Seq<char>, ObjectModel> {
    Map::new(
        |k: Seq<char>| exists|i: int| 0 <= i < bs.len() && bs[i].0@ == k,
        |k: Seq<char>| bs[choose|i: int| 0 <= i < bs.len() && bs[i].0@ == k].1@,
    )
}

pub open spec fn distinct_names(bs: Seq<(String, Object)>) -> bool {
    forall|i: int, j: int| 0 <= i < bs.len() && 0 <= j < bs.len() && i != j ==> bs[i].0@ != bs[j].0@
}

/// The value of `name` in the innermost scope that defines it.
pub open spec fn spec_lookup(scopes: Seq<Map<Seq<char>, ObjectModel>>, name: Seq<char>) -> Option<ObjectModel>
    decreases scopes.len(),
{
    if scopes.len() == 0 {
        None
    } else if scopes.last().contains_key(name) {
        Some(scopes.last()[name])
    } else {
        spec_lookup(scopes.drop_last(), name)
    }
}

/// `name` bound to `value` in the innermost scope.
pub open spec fn spec_define(scopes: Seq<Map<Seq<char>, ObjectModel>>, name: Seq<char>, value: ObjectModel) -> Seq<
    Map<Seq<char>, ObjectModel>,
> {
    scopes.update(scopes.len() - 1, scopes.last().insert(name, value))
}

/// `name` rebound to `value` in the innermost scope that defines it; no
/// change when no scope does.
pub open spec fn spec_assign(scopes: Seq<Map<Seq<char>, ObjectModel>>, name: Seq<char>, value: ObjectModel) -> Seq<
    Map<Seq<char>, ObjectModel>,
>
    decreases scopes.len(),
{
    if scopes.len() == 0 {
        scopes
    } else if scopes.last().contains_key(name) {
        spec_define(scopes, name, value)
    } else {
        spec_assign(scopes.drop_last(), name, value).push(scopes.last())
    }
}

/// The message for a variable that no scope defines.
pub open spec fn undefined_message(name: Seq<char>) -> Seq<char> {
    "Undefined variable '"@ + name + "'."@
}

/// The global scope: `clock` and nothing else.
pub open spec fn global_scope() -> Map<Seq<char>, ObjectModel> {
    Map::empty().insert("clock"@, ObjectModel::Callable(Callable::Clock))
}

/// Nested scopes of variables; the last scope is the innermost.
pub struct Enviorment {
    scopes: Vec<Vec<(String, Object)>>,
}

impl Enviorment {
    /// The scopes, outermost first.
    pub closed spec fn model(&self) -> Seq<Map<Seq<char>, ObjectModel>> {
        self.scopes@.map_values(|s: Vec<(String, Object)>| scope_map(s@))
    }

    /// There is a scope, and no scope binds a name twice.
    pub closed spec fn wf(&self) -> bool {
        &&& self.scopes@.len() >= 1
        &&& forall|k: int| 0 <= k < self.scopes@.len() ==> distinct_names(#[trigger] self.scopes@[k]@)
    }

    pub proof fn lemma_wf(&self)
        requires
            self.wf(),
        ensures
            self.model().len() >= 1,
    {
    }

    /// A fresh environment with the global scope, which defines `clock`.
    pub fn new() -> (env: Self)
        ensures
            env.wf(),
            env.model() == seq![global_scope()],
    {
        let mut global: Vec<(String, Object)> = Vec::new();
        global.push((String::from_str("clock"), Object::Callable(Callable::Clock)));
        let mut scopes: Vec<Vec<(String, Object)>> = Vec::new();
        scopes.push(global);
        let env = Enviorment { scopes };
        proof {
            let bs = global@;
            assert(scope_map(bs).contains_key("clock"@)) by {
                assert(bs[0].0@ == "clock"@);
            }
            assert(scope_map(bs) =~= global_scope());
            assert(env.model() =~= seq![global_scope()]);
        }
        env
    }

    /// The number of scopes.
    pub fn depth(&self) -> (n: usize)
        ensures
            n == self.model().len(),
    {
        self.scopes.len()
    }

    /// Opens an innermost scope with no variables.
    pub fn push_scope(&mut self)
        requires
            old(self).wf(),
        ensures
            final(self).wf(),
            final(self).model() == old(self).model().push(Map::empty()),
    {
        let ghost old_scopes = self.scopes@;
        self.scopes.push(Vec::new());
        proof {
            assert(scope_map(Seq::<(String, Object)>::empty()) =~= Map::empty());
            assert(self.model() =~= old(self).model().push(Map::empty()));
            assert forall|k: int| 0 <= k < self.scopes@.len() implies distinct_names(#[trigger] self.scopes@[k]@) by {
                if k < old_scopes.len() {
                    assert(self.scopes@[k] == old_scopes[k]);
                }
            }
        }
    }

    /// Keeps the outermost `depth` scopes.
    pub fn truncate(&mut self, depth: usize)
        requires
            old(self).wf(),
            1 <= depth <= old(self).model().len(),
        ensures
            final(self).wf(),
            final(self).model() == old(self).model().subrange(0, depth as int),
    {
        self.scopes.truncate(depth);
        assert(self.model() =~= old(self).model().subrange(0, depth as int));
    }

    /// Binds `name` to `value` in the innermost scope.
    pub fn define(&mut self, name: &str, value: Object)
        requires
            old(self).wf(),
        ensures
            final(self).wf(),
            final(self).model() == spec_define(old(self).model(), name@, value@),
    {
        let last = self.scopes.len() - 1;
        let ghost old_model = self.model();
        let mut scope: Vec<(String, Object)> = Vec::new();
        self.scopes.set_and_swap(last, &mut scope);
        let ghost bs0 = scope@;
        assert(distinct_names(bs0)) by {
            assert(old(self).scopes@[last as int]@ == bs0);
        }
        Self::bind(&mut scope, name, value);
        self.scopes.set_and_swap(last, &mut scope);
        proof {
            assert(self.model() =~= spec_define(old_model, name@, value@)) by {
                assert forall|k: int| 0 <= k < self.model().len() implies #[trigger] self.model()[k]
                    == spec_define(old_model, name@, value@)[k] by {
                    if k != last {
                        assert(self.scopes@[k] == old(self).scopes@[k]);
                    }
                }
            }
            assert forall|k: int| 0 <= k < self.scopes@.len() implies distinct_names(#[trigger] self.scopes@[k]@) by {
                if k != last {
                    assert(self.scopes@[k] == old(self).scopes@[k]);
                }
            }
        }
    }

    /// The position of `name` in a scope.
    fn find(bs: &Vec<(String, Object)>, name: &str) -> (r: Option<usize>)
        ensures
            r matches Some(i) ==> i < bs@.len() && bs@[i as int].0@ == name@,
            r is None ==> forall|i: int| 0 <= i < bs@.len() ==> bs@[i].0@ != name@,
    {
        let mut i: usize = 0;
        while i < bs.len()
            invariant
                i <= bs@.len(),
                forall|j: int| 0 <= j < i ==> bs@[j].0@ != name@,
            decreases bs@.len() - i,
        {
            if str_equal(bs[i].0.as_str(), name) {
                return Some(i);
            }
            i = i + 1;
        }
        None
    }

    /// Binds `name` to `value` in one scope.
    fn bind(bs: &mut Vec<(String, Object)>, name: &str, value: Object)
        requires
            distinct_names(old(bs)@),
        ensures
            distinct_names(final(bs)@),
            scope_map(final(bs)@) == scope_map(old(bs)@).insert(name@, value@),
    {
        let ghost v = value@;
        match Self::find(bs, name) {
            Some(i) => {
                bs.set(i, (String::from_str(name), value));
                proof {
                    let b0 = old(bs)@;
                    let b1 = bs@;
                    assert(distinct_names(b1)) by {
                        assert forall|x: int, y: int| 0 <= x < b1.len() && 0 <= y < b1.len() && x != y implies b1[x].0@
                            != b1[y].0@ by {
                            if x != i && y != i {
                                assert(b1[x] == b0[x] && b1[y] == b0[y]);
                            } else if x == i {
                                assert(b1[y] == b0[y]);
                            } else {
                                assert(b1[x] == b0[x]);
                            }
                        }
                    }
                    assert(scope_map(b1) =~= scope_map(b0).insert(name@, v)) by {
                        assert forall|k: Seq<char>| #[trigger] scope_map(b1).contains_key(k) <==> scope_map(
                            b0,
                        ).insert(name@, v).contains_key(k) by {
                            if scope_map(b1).contains_key(k) {
                                let j = choose|j: int| 0 <= j < b1.len() && b1[j].0@ == k;
                                if j != i {
                                    assert(b1[j] == b0[j]);
                                }
                            }
                            if scope_map(b0).contains_key(k) {
                                let j = choose|j: int| 0 <= j < b0.len() && b0[j].0@ == k;
                                if j != i {
                                    assert(b1[j] == b0[j]);
                                } else {
                                    assert(b1[i as int].0@ == k);
                                }
                            }
                            if k == name@ {
                                assert(b1[i as int].0@ == k);
                            }
                        }
                        assert forall|k: Seq<char>| #[trigger] scope_map(b1).contains_key(k) implies scope_map(b1)[k]
                            == scope_map(b0).insert(name@, v)[k] by {
                            let j = choose|j: int| 0 <= j < b1.len() && b1[j].0@ == k;
                            if j == i {
                                assert(k == name@);
                            } else {
                                assert(b1[j] == b0[j]);
                                assert(k != name@);
                                let j0 = choose|j0: int| 0 <= j0 < b0.len() && b0[j0].0@ == k;
                                assert(j0 == j);
                            }
                        }
                    }
                }
            },
            None => {
                bs.push((String::from_str(name), value));
                proof {
                    let b0 = old(bs)@;
                    let b1 = bs@;
                    assert(forall|j: int| 0 <= j < b0.len() ==> b1[j] == b0[j]);
                    assert(scope_map(b1) =~= scope_map(b0).insert(name@, v)) by {
                        assert forall|k: Seq<char>| #[trigger] scope_map(b1).contains_key(k) <==> scope_map(
                            b0,
                        ).insert(name@, v).contains_key(k) by {
                            if scope_map(b0).contains_key(k) {
                                let j = choose|j: int| 0 <= j < b0.len() && b0[j].0@ == k;
                                assert(b1[j] == b0[j]);
                            }
                            if k == name@ {
                                assert(b1[b0.len() as int].0@ == k);
                            }
                        }
                        assert forall|k: Seq<char>| #[trigger] scope_map(b1).contains_key(k) implies scope_map(b1)[k]
                            == scope_map(b0).insert(name@, v)[k] by {
                            let j = choose|j: int| 0 <= j < b1.len() && b1[j].0@ == k;
                            if j == b0.len() {
                                assert(k == name@);
                            } else {
                                assert(b1[j] == b0[j]);
                                assert(k != name@);
                                let j0 = choose|j0: int| 0 <= j0 < b0.len() && b0[j0].0@ == k;
                                assert(j0 == j);
                            }
                        }
                    }
                }
            },
        }
    }

    /// The value of `name` in the innermost scope that defines it, or the
    /// message `Undefined variable '<name>'.`.
    pub fn get(&self, name: &str) -> (r: Result<Object, String>)
        requires
            self.wf(),
        ensures
            match spec_lookup(self.model(), name@) {
                Some(v) => r matches Ok(o) && o@ == v,
                None => r matches Err(msg) && msg@ == undefined_message(name@),
            },
    {
        let ghost m = self.model();
        let mut k = self.scopes.len();
        assert(m.subrange(0, m.len() as int) =~= m);
        while k > 0
            invariant
                self.wf(),
                k <= self.scopes@.len(),
                m == self.model(),
                spec_lookup(m, name@) == spec_lookup(m.subrange(0, k as int), name@),
            decreases k,
        {
            let scope = &self.scopes[k - 1];
            match Self::find(scope, name) {
                Some(i) => {
                    proof {
                        let sub = m.subrange(0, k as int);
                        assert(sub.last() == scope_map(scope@));
                        assert(sub.last().contains_key(name@));
                        assert(scope_map(scope@)[name@] == scope@[i as int].1@) by {
                            let j = choose|j: int| 0 <= j < scope@.len() && scope@[j].0@ == name@;
                            assert(self.wf());
                            assert(distinct_names(self.scopes@[k - 1]@));
                        }
                    }
                    return Ok(scope[i].1.clone());
                },
                None => {
                    proof {
                        let sub = m.subrange(0, k as int);
                        assert(!sub.last().contains_key(name@));
                        assert(sub.drop_last() =~= m.subrange(0, k - 1));
                    }
                    k = k - 1;
                },
            }
        }
        let msg = String::from_str("Undefined variable '");
        let msg = msg.concat(name);
        let msg = msg.concat("'.");
        Err(msg)
    }

    /// Rebinds `name` to `value` in the innermost scope that defines it, or
    /// answers the message `Undefined variable '<name>'.` and changes nothing.
    pub fn assign(&mut self, name: &str, value: Object) -> (r: Result<(), String>)
        requires
            old(self).wf(),
        ensures
            final(self).wf(),
            match spec_lookup(old(self).model(), name@) {
                Some(_) => r is Ok && final(self).model() == spec_assign(old(self).model(), name@, value@),
                None => r matches Err(msg) && msg@ == undefined_message(name@) && final(self).model() == old(
                    self,
                ).model(),
            },
    {
        let ghost m = self.model();
        let mut k = self.scopes.len();
        while k > 0
            invariant
                old(self).wf(),
                k <= self.scopes@.len(),
                self.scopes@ == old(self).scopes@,
                m == self.model(),
                forall|j: int| k <= j < m.len() ==> !(#[trigger] m[j]).contains_key(name@),
            decreases k,
        {
            match Self::find(&self.scopes[k - 1], name) {
                Some(i) => {
                    let mut scope: Vec<(String, Object)> = Vec::new();
                    self.scopes.set_and_swap(k - 1, &mut scope);
                    assert(distinct_names(scope@)) by {
                        assert(old(self).scopes@[k - 1] == scope);
                    }
                    proof {
                        assert(scope_map(scope@).contains_key(name@)) by {
                            assert(scope@[i as int].0@ == name@);
                        }
                    }
                    let ghost before = scope_map(scope@);
                    Self::bind(&mut scope, name, value);
                    self.scopes.set_and_swap(k - 1, &mut scope);
                    proof {
                        lemma_assign_at(m, name@, value@, k - 1);
                        assert(self.model() =~= m.update(k - 1, m[k - 1].insert(name@, value@))) by {
                            assert forall|j: int| 0 <= j < m.len() implies #[trigger] self.model()[j] == m.update(
                                k - 1,
                                m[k - 1].insert(name@, value@),
                            )[j] by {
                                if j != k - 1 {
                                    assert(self.scopes@[j] == old(self).scopes@[j]);
                                }
                            }
                        }
                        assert forall|j: int| 0 <= j < self.scopes@.len() implies distinct_names(
                            #[trigger] self.scopes@[j]@,
                        ) by {
                            if j != k - 1 {
                                assert(self.scopes@[j] == old(self).scopes@[j]);
                            }
                        }
                        lemma_lookup_found(m, name@, k - 1);
                    }
                    return Ok(());
                },
                None => {
                    proof {
                        assert(m[k - 1] == scope_map(self.scopes@[k - 1]@));
                        assert(!m[k - 1].contains_key(name@));
                    }
                    k = k - 1;
                },
            }
        }
        proof {
            lemma_lookup_none(m, name@);
        }
        let msg = String::from_str("Undefined variable '");
        let msg = msg.concat(name);
        let msg = msg.concat("'.");
        Err(msg)
    }
}

/// No scope defines `name`, so it is undefined.
proof fn lemma_lookup_none(scopes: Seq<Map<Seq<char>, ObjectModel>>, name: Seq<char>)
    requires
        forall|j: int| 0 <= j < scopes.len() ==> !(#[trigger] scopes[j]).contains_key(name),
    ensures
        spec_lookup(scopes, name) is None,
    decreases scopes.len(),
{
    if scopes.len() > 0 {
        let d = scopes.drop_last();
        assert forall|j: int| 0 <= j < d.len() implies !(#[trigger] d[j]).contains_key(name) by {
            assert(d[j] == scopes[j]);
        }
        lemma_lookup_none(d, name);
    }
}

/// Scope `k` defines `name` and no scope inside it does, so lookup finds it there.
proof fn lemma_lookup_found(scopes: Seq<Map<Seq<char>, ObjectModel>>, name: Seq<char>, k: int)
    requires
        0 <= k < scopes.len(),
        scopes[k].contains_key(name),
        forall|j: int| k < j < scopes.len() ==> !(#[trigger] scopes[j]).contains_key(name),
    ensures
        spec_lookup(scopes, name) == Some(scopes[k][name]),
    decreases scopes.len(),
{
    if k < scopes.len() - 1 {
        let d = scopes.drop_last();
        assert forall|j: int| k < j < d.len() implies !(#[trigger] d[j]).contains_key(name) by {
            assert(d[j] == scopes[j]);
        }
        lemma_lookup_found(d, name, k);
    }
}

/// Assignment rebinds the name in scope `k`, the innermost that defines it.
proof fn lemma_assign_at(scopes: Seq<Map<Seq<char>, ObjectModel>>, name: Seq<char>, value: ObjectModel, k: int)
    requires
        0 <= k < scopes.len(),
        scopes[k].contains_key(name),
        forall|j: int| k < j < scopes.len() ==> !(#[trigger] scopes[j]).contains_key(name),
    ensures
        spec_assign(scopes, name, value) == scopes.update(k, scopes[k].insert(name, value)),
    decreases scopes.len(),
{
    if k < scopes.len() - 1 {
        let d = scopes.drop_last();
        assert forall|j: int| k < j < d.len() implies !(#[trigger] d[j]).contains_key(name) by {
            assert(d[j] == scopes[j]);
        }
        lemma_assign_at(d, name, value, k);
        assert(d.update(k, d[k].insert(name, value)).push(scopes.last()) =~= scopes.update(
            k,
            scopes[k].insert(name, value),
        ));
    }
}

/// A variable reads back the value it was last defined with.
pub proof fn law_get_after_define(scopes: Seq<Map<Seq<char>, ObjectModel>>, name: Seq<char>, value: ObjectModel)
    requires
        scopes.len() >= 1,
    ensures
        spec_lookup(spec_define(scopes, name, value), name) == Some(value),
{
}

/// Defining one variable leaves every other variable as it was.
pub proof fn law_define_keeps_others(
    scopes: Seq<Map<Seq<char>, ObjectModel>>,
    name: Seq<char>,
    other: Seq<char>,
    value: ObjectModel,
)
    requires
        scopes.len() >= 1,
        name != other,
    ensures
        spec_lookup(spec_define(scopes, name, value), other) == spec_lookup(scopes, other),
{
    let d = spec_define(scopes, name, value);
    assert(d.drop_last() =~= scopes.drop_last());
}

/// A variable reads back the value last assigned to it.
pub proof fn law_get_after_assign(scopes: Seq<Map<Seq<char>, ObjectModel>>, name: Seq<char>, value: ObjectModel)
    requires
        spec_lookup(scopes, name) is Some,
    ensures
        spec_lookup(spec_assign(scopes, name, value), name) == Some(value),
    decreases scopes.len(),
{
    if !scopes.last().contains_key(name) {
        law_get_after_assign(scopes.drop_last(), name, value);
        let a = spec_assign(scopes.drop_last(), name, value);
        assert(a.push(scopes.last()).drop_last() =~= a);
    }
}

/// Assigning one variable leaves every other variable as it was.
pub proof fn law_assign_keeps_others(
    scopes: Seq<Map<Seq<char>, ObjectModel>>,
    name: Seq<char>,
    other: Seq<char>,
    value: ObjectModel,
)
    requires
        name != other,
    ensures
        spec_lookup(spec_assign(scopes, name, value), other) == spec_lookup(scopes, other),
    decreases scopes.len(),
{
    if scopes.len() > 0 {
        if scopes.last().contains_key(name) {
            law_define_keeps_others(scopes, name, other, value);
        } else {
            law_assign_keeps_others(scopes.drop_last(), name, other, value);
            let a = spec_assign(scopes.drop_last(), name, value);
            assert(a.push(scopes.last()).drop_last() =~= a);
        }
    }
}

/// Assignment never creates a variable: it changes the scopes only where
/// the name is already defined, and keeps their number.
pub proof fn law_assign_keeps_domains(scopes: Seq<Map<Seq<char>, ObjectModel>>, name: Seq<char>, value: ObjectModel)
    ensures
        spec_assign(scopes, name, value).len() == scopes.len(),
        forall|k: int| 0 <= k < scopes.len() ==> (#[trigger] spec_assign(scopes, name, value)[k]).dom() == scopes[k].dom(),
    decreases scopes.len(),
{
    if scopes.len() > 0 {
        if scopes.last().contains_key(name) {
            assert(scopes.last().insert(name, value).dom() =~= scopes.last().dom());
        } else {
            law_assign_keeps_domains(scopes.drop_last(), name, value);
            let a = spec_assign(scopes.drop_last(), name, value);
            assert forall|k: int| 0 <= k < scopes.len() implies (#[trigger] spec_assign(scopes, name, value)[k]).dom()
                == scopes[k].dom() by {
                if k < scopes.len() - 1 {
                    assert(a.push(scopes.last())[k] == a[k]);
                }
            }
        }
    }
}

/// A variable defined in an inner scope hides an outer one while the scope
/// is open, and the outer one is seen again once the scope is closed.
pub proof fn law_shadowing(scopes: Seq<Map<Seq<char>, ObjectModel>>, name: Seq<char>, value: ObjectModel)
    ensures
        spec_lookup(spec_define(scopes.push(Map::empty()), name, value), name) == Some(value),
        spec_define(scopes.push(Map::empty()), name, value).drop_last() == scopes,
{
    assert(spec_define(scopes.push(Map::empty()), name, value).drop_last() =~= scopes);
}

} // verus!
