//! Validation error types.
//!
//! [`ValidationErrors`] collects the errors of every field under a field path
//! in dot notation (`address.city`, `members.0.email`). Its model is a map from
//! field path to the sequence of errors recorded for that path, in the order
//! they were recorded.
use vstd::prelude::*;

verus! {

/// The model of one parameter list: (key, value) pairs.
pub type ParamsModel = Seq<(Seq<char>, Seq<char>)>;

/// The model of a [`ValidationError`].
pub struct ErrorModel {
    pub rule: Seq<char>,
    pub message: Seq<char>,
    pub params: ParamsModel,
}

/// The model of a [`ValidationErrors`]: field path to recorded errors.
pub type ErrorsModel = Map<Seq<char>, Seq<ErrorModel>>;

/// Turns a list of (key, value) pairs into a map; an earlier pair wins.
pub open spec fn pairs_to_map<V>(s: Seq<(Seq<char>, V)>) -> Map<Seq<char>, V>
    decreases s.len(),
{
    if s.len() == 0 {
        Map::empty()
    } else {
        pairs_to_map(s.drop_first()).insert(s[0].0, s[0].1)
    }
}

/// No key occurs twice in `s`.
pub open spec fn distinct_keys<V>(s: Seq<(Seq<char>, V)>) -> bool {
    forall|i: int, j: int| 0 <= i < j < s.len() ==> s[i].0 != s[j].0
}

/// Value stored under key `k` in a list of pairs (the first such pair).
pub open spec fn param_lookup(ps: ParamsModel, k: Seq<char>) -> Option<Seq<char>>
    decreases ps.len(),
{
    if ps.len() == 0 {
        None
    } else if ps[0].0 == k {
        Some(ps[0].1)
    } else {
        param_lookup(ps.drop_first(), k)
    }
}

/// Index of the first pair with key `k`.
pub open spec fn key_index<V>(s: Seq<(Seq<char>, V)>, k: Seq<char>) -> Option<int>
    decreases s.len(),
{
    if s.len() == 0 {
        None
    } else if s[0].0 == k {
        Some(0)
    } else {
        match key_index(s.drop_first(), k) {
            Some(i) => Some(i + 1),
            None => None,
        }
    }
}

/// `key_index` finds the first position holding `k`, and nothing when no
/// position does.
pub proof fn lemma_key_index<V>(s: Seq<(Seq<char>, V)>, k: Seq<char>)
    ensures
        match key_index(s, k) {
            Some(i) => 0 <= i < s.len() && s[i].0 == k && forall|j: int| 0 <= j < i ==> s[j].0 != k,
            None => forall|j: int| 0 <= j < s.len() ==> s[j].0 != k,
        },
    decreases s.len(),
{
    if s.len() > 0 && s[0].0 != k {
        let t = s.drop_first();
        lemma_key_index(t, k);
        match key_index(t, k) {
            Some(i) => {
                assert forall|j: int| 0 <= j < i + 1 implies s[j].0 != k by {
                    if j > 0 {
                        assert(s[j] == t[j - 1]);
                    }
                }
            },
            None => {
                assert forall|j: int| 0 <= j < s.len() implies s[j].0 != k by {
                    if j > 0 {
                        assert(s[j] == t[j - 1]);
                    }
                }
            },
        }
    }
}

/// The parameter list after setting `k` to `v`: an existing key keeps its
/// place and gets the new value, a new key goes at the end.
pub open spec fn params_set(ps: ParamsModel, k: Seq<char>, v: Seq<char>) -> ParamsModel {
    match key_index(ps, k) {
        Some(i) => ps.update(i, (k, v)),
        None => ps.push((k, v)),
    }
}

/// The model of a list of (String, String) parameters.
pub open spec fn params_model(ps: Seq<(String, String)>) -> ParamsModel {
    ps.map_values(|p: (String, String)| (p.0@, p.1@))
}

/// A single validation error on a field.
#[derive(Debug)]
pub struct ValidationError {
    /// Rule name, e.g. "required", "min", "email".
    pub rule: String,
    /// The rendered human-readable message.
    pub message: String,
    /// Parameters for message interpolation (e.g. "min" => "8"); no key twice.
    pub params: Vec<(String, String)>,
}

impl View for ValidationError {
    type V = ErrorModel;

    open spec fn view(&self) -> ErrorModel {
        ErrorModel { rule: self.rule@, message: self.message@, params: params_model(self.params@) }
    }
}

/// Index in `v` of the first pair whose key is `k`.
fn find_key<V>(v: &Vec<(String, V)>, k: &str) -> (r: Option<usize>)
    ensures
        match r {
            Some(i) => i < v@.len() && v@[i as int].0@ == k@
                && forall|j: int| 0 <= j < i ==> v@[j].0@ != k@,
            None => forall|j: int| 0 <= j < v@.len() ==> v@[j].0@ != k@,
        },
{
    let mut i: usize = 0;
    while i < v.len()
        invariant
            i <= v@.len(),
            forall|j: int| 0 <= j < i ==> v@[j].0@ != k@,
        decreases v@.len() - i,
    {
        if crate::text::str_eq(v[i].0.as_str(), k) {
            return Some(i);
        }
        i = i + 1;
    }
    None
}

impl Clone for ValidationError {
    fn clone(&self) -> (r: Self)
        ensures
            r@ == self@,
    {
        let mut params: Vec<(String, String)> = Vec::new();
        let mut i: usize = 0;
        while i < self.params.len()
            invariant
                i <= self.params@.len(),
                params@.len() == i,
                params_model(params@) == params_model(self.params@).take(i as int),
            decreases self.params@.len() - i,
        {
            let k = self.params[i].0.clone();
            let v = self.params[i].1.clone();
            params.push((k, v));
            assert(params_model(params@)[i as int] == params_model(self.params@)[i as int]);
            assert(params_model(params@) =~= params_model(self.params@).take(i + 1));
            i = i + 1;
        }
        assert(params_model(self.params@).take(i as int) =~= params_model(self.params@));
        ValidationError { rule: self.rule.clone(), message: self.message.clone(), params }
    }
}

impl ValidationError {
    /// An error of rule `rule` with message `message` and no parameters.
    pub fn new(rule: &str, message: &str) -> (r: Self)
        ensures
            r@ == (ErrorModel { rule: rule@, message: message@, params: Seq::empty() }),
    {
        let r = ValidationError { rule: rule.to_string(), message: message.to_string(), params: Vec::new() };
        assert(params_model(r.params@) =~= Seq::empty());
        r
    }

    /// The same error with parameter `key` set to `value`.
    pub fn with_param(self, key: &str, value: &str) -> (r: Self)
        ensures
            r@ == (ErrorModel { params: params_set(self@.params, key@, value@), ..self@ }),
    {
        let mut e = self;
        let ghost old_params = e@.params;
        let ghost old_vec = e.params@;
        match find_key(&e.params, key) {
            Some(i) => {
                proof {
                    assert(old_params[i as int] == (old_vec[i as int].0@, old_vec[i as int].1@));
                }
                e.params.set(i, (key.to_string(), value.to_string()));
                proof {
                    lemma_key_index(old_params, key@);
                    let w = key_index(old_params, key@);
                    assert(w == Some(i as int)) by {
                        if let Some(c) = w {
                            if c < i {
                                assert(old_params[c].0 != key@);
                            } else if c > i {
                                assert(old_params[i as int].0 != key@);
                            }
                        }
                    }
                    assert(params_model(e.params@) =~= old_params.update(i as int, (key@, value@)));
                }
            },
            None => {
                e.params.push((key.to_string(), value.to_string()));
                proof {
                    lemma_key_index(old_params, key@);
                    assert(params_model(e.params@) =~= old_params.push((key@, value@)));
                }
            },
        }
        e
    }
}

/// Reading a parameter back after setting it gives the value set, and every
/// other key keeps its value.
pub proof fn lemma_with_param_lookup(ps: ParamsModel, k: Seq<char>, v: Seq<char>, other: Seq<char>)
    requires
        other != k,
    ensures
        param_lookup(params_set(ps, k, v), k) == Some(v),
        param_lookup(params_set(ps, k, v), other) == param_lookup(ps, other),
    decreases ps.len(),
{
    let r = params_set(ps, k, v);
    if ps.len() == 0 {
        assert(r =~= seq![(k, v)]);
        assert(r.drop_first() =~= Seq::<(Seq<char>, Seq<char>)>::empty());
        assert(param_lookup(r.drop_first(), other) is None);
        assert(param_lookup(r, other) is None);
    } else if ps[0].0 == k {
        assert(r.drop_first() =~= ps.drop_first());
        assert(param_lookup(r, other) == param_lookup(ps, other));
    } else {
        let t = ps.drop_first();
        lemma_with_param_lookup(t, k, v, other);
        lemma_key_index(t, k);
        match key_index(t, k) {
            Some(i) => {
                assert(r.drop_first() =~= params_set(t, k, v));
                assert(r[0] == ps[0]);
            },
            None => {
                assert(r.drop_first() =~= params_set(t, k, v));
                assert(r[0] == ps[0]);
            },
        }
    }
}

/// Setting a parameter keeps the keys of a parameter list distinct.
pub proof fn lemma_with_param_distinct(ps: ParamsModel, k: Seq<char>, v: Seq<char>)
    requires
        distinct_keys(ps),
    ensures
        distinct_keys(params_set(ps, k, v)),
{
    let r = params_set(ps, k, v);
    lemma_key_index(ps, k);
    match key_index(ps, k) {
        Some(i) => {
            assert forall|a: int, b: int| 0 <= a < b < r.len() implies r[a].0 != r[b].0 by {
                if a == i {
                    assert(ps[b].0 != ps[i].0);
                } else if b == i {
                    assert(ps[a].0 != ps[i].0);
                }
            }
        },
        None => {},
    }
}


/// With distinct keys, the map of a pair list holds exactly its pairs.
pub proof fn lemma_pairs_to_map<V>(s: Seq<(Seq<char>, V)>)
    requires
        distinct_keys(s),
    ensures
        forall|i: int| 0 <= i < s.len() ==> #[trigger] pairs_to_map(s).contains_key(s[i].0)
            && pairs_to_map(s)[s[i].0] == s[i].1,
        forall|k: Seq<char>| #[trigger] pairs_to_map(s).contains_key(k) ==>
            exists|i: int| 0 <= i < s.len() && s[i].0 == k,
        pairs_to_map(s).dom().finite(),
        pairs_to_map(s).dom().len() == s.len(),
    decreases s.len(),
{
    if s.len() > 0 {
        let t = s.drop_first();
        lemma_pairs_to_map(t);
        let m = pairs_to_map(t);
        assert(!m.contains_key(s[0].0)) by {
            if m.contains_key(s[0].0) {
                let i = choose|i: int| 0 <= i < t.len() && t[i].0 == s[0].0;
                assert(s[i + 1].0 == s[0].0);
            }
        }
        assert forall|i: int| 0 <= i < s.len() implies #[trigger] pairs_to_map(s).contains_key(s[i].0)
            && pairs_to_map(s)[s[i].0] == s[i].1 by {
            if i > 0 {
                assert(s[i] == t[i - 1]);
                assert(s[i].0 != s[0].0);
            }
        }
        assert forall|k: Seq<char>| #[trigger] pairs_to_map(s).contains_key(k) implies
            exists|i: int| 0 <= i < s.len() && s[i].0 == k by {
            if k != s[0].0 {
                let i = choose|i: int| 0 <= i < t.len() && t[i].0 == k;
                assert(s[i + 1].0 == k);
            }
        }
    }
}

/// Appending a pair with a new key inserts it into the map.
pub proof fn lemma_pairs_to_map_push<V>(s: Seq<(Seq<char>, V)>, k: Seq<char>, v: V)
    requires
        forall|i: int| 0 <= i < s.len() ==> s[i].0 != k,
    ensures
        pairs_to_map(s.push((k, v))) == pairs_to_map(s).insert(k, v),
    decreases s.len(),
{
    if s.len() == 0 {
        assert(s.push((k, v)).drop_first() =~= s);
    } else {
        let t = s.drop_first();
        assert(s.push((k, v)).drop_first() =~= t.push((k, v)));
        lemma_pairs_to_map_push(t, k, v);
        assert(pairs_to_map(s.push((k, v))) =~= pairs_to_map(s).insert(k, v));
    }
}

/// Replacing the value of the pair at `i` replaces the value under its key.
pub proof fn lemma_pairs_to_map_update<V>(s: Seq<(Seq<char>, V)>, i: int, v: V)
    requires
        distinct_keys(s),
        0 <= i < s.len(),
    ensures
        pairs_to_map(s.update(i, (s[i].0, v))) == pairs_to_map(s).insert(s[i].0, v),
    decreases s.len(),
{
    let k = s[i].0;
    let t = s.drop_first();
    if i == 0 {
        assert(s.update(0, (k, v)).drop_first() =~= t);
        assert(pairs_to_map(s.update(i, (k, v))) =~= pairs_to_map(s).insert(k, v));
    } else {
        assert(s.update(i, (k, v)).drop_first() =~= t.update(i - 1, (k, v)));
        lemma_pairs_to_map_update(t, i - 1, v);
        assert(s[0].0 != k);
        assert(pairs_to_map(s.update(i, (k, v))) =~= pairs_to_map(s).insert(k, v));
    }
}

/// Applying `f` to every value of the pairs applies it to every value of the map.
pub proof fn lemma_pairs_to_map_values<V, W>(s: Seq<(Seq<char>, V)>, f: spec_fn(V) -> W)
    ensures
        pairs_to_map(s.map_values(|p: (Seq<char>, V)| (p.0, f(p.1)))) == pairs_to_map(s).map_values(f),
    decreases s.len(),
{
    let g = |p: (Seq<char>, V)| (p.0, f(p.1));
    if s.len() == 0 {
        assert(pairs_to_map(s.map_values(g)) =~= pairs_to_map(s).map_values(f));
    } else {
        let t = s.drop_first();
        lemma_pairs_to_map_values(t, f);
        assert(s.map_values(g).drop_first() =~= t.map_values(g));
        assert(pairs_to_map(s.map_values(g)) =~= pairs_to_map(s).map_values(f));
    }
}


/// The models of a list of errors.
pub open spec fn errors_list_model(v: Seq<ValidationError>) -> Seq<ErrorModel> {
    v.map_values(|e: ValidationError| e@)
}

/// The model of a list of (field, errors) entries.
pub open spec fn entries_model(v: Seq<(String, Vec<ValidationError>)>) -> Seq<(Seq<char>, Seq<ErrorModel>)> {
    v.map_values(|p: (String, Vec<ValidationError>)| (p.0@, errors_list_model(p.1@)))
}

/// Errors recorded under `k` in `m`, or none.
pub open spec fn errors_at(m: ErrorsModel, k: Seq<char>) -> Seq<ErrorModel> {
    if m.contains_key(k) {
        m[k]
    } else {
        Seq::empty()
    }
}

/// A well-formed errors model: finitely many field paths, each with at least one error.
pub open spec fn errors_model_wf(m: ErrorsModel) -> bool {
    &&& m.dom().finite()
    &&& forall|k: Seq<char>| #[trigger] m.contains_key(k) ==> m[k].len() > 0
}

/// `m` with `errs` appended to the errors of `k`.
pub open spec fn errors_extend(m: ErrorsModel, k: Seq<char>, errs: Seq<ErrorModel>) -> ErrorsModel {
    m.insert(k, errors_at(m, k) + errs)
}

/// Field path of `field` nested under `prefix`: `prefix.field`, or `field`
/// when the prefix is empty.
pub open spec fn prefixed(prefix: Seq<char>, field: Seq<char>) -> Seq<char> {
    if prefix.len() == 0 {
        field
    } else {
        prefix + seq!['.'] + field
    }
}

/// The field whose path under `prefix` is `k`, if `k` has that shape.
pub open spec fn strip_prefix(prefix: Seq<char>, k: Seq<char>) -> Option<Seq<char>> {
    if prefix.len() == 0 {
        Some(k)
    } else if prefix.len() + 1 <= k.len() && k.subrange(0, prefix.len() + 1 as int) == prefix + seq!['.'] {
        Some(k.subrange(prefix.len() + 1 as int, k.len() as int))
    } else {
        None
    }
}

/// `strip_prefix` undoes `prefixed`, and only paths built by `prefixed` strip.
pub proof fn lemma_strip_prefix(prefix: Seq<char>, f: Seq<char>, k: Seq<char>)
    ensures
        strip_prefix(prefix, prefixed(prefix, f)) == Some(f),
        strip_prefix(prefix, k) matches Some(g) ==> prefixed(prefix, g) == k,
{
    if prefix.len() > 0 {
        let p = prefixed(prefix, f);
        assert(p.subrange(0, prefix.len() + 1 as int) =~= prefix + seq!['.']);
        assert(p.subrange(prefix.len() + 1 as int, p.len() as int) =~= f);
        if let Some(g) = strip_prefix(prefix, k) {
            assert(k =~= k.subrange(0, prefix.len() + 1 as int) + g);
        }
    }
}

/// The errors of `b` placed under `prefix` and merged into `a`: a path that
/// both hold keeps the errors of `a` first, then those of `b`.
pub open spec fn merged(a: ErrorsModel, prefix: Seq<char>, b: ErrorsModel) -> ErrorsModel {
    Map::new(
        |k: Seq<char>| a.contains_key(k) || (strip_prefix(prefix, k) matches Some(f) && b.contains_key(f)),
        |k: Seq<char>|
            errors_at(a, k) + match strip_prefix(prefix, k) {
                Some(f) => errors_at(b, f),
                None => Seq::empty(),
            },
    )
}

/// One merge step: extending `a` by the errors of one field of `b` and
/// merging the rest of `b` is merging all of `b`.
proof fn lemma_merge_step(a: ErrorsModel, prefix: Seq<char>, m: ErrorsModel, k0: Seq<char>, v0: Seq<ErrorModel>)
    requires
        !m.contains_key(k0),
    ensures
        merged(errors_extend(a, prefixed(prefix, k0), v0), prefix, m) == merged(a, prefix, m.insert(k0, v0)),
{
    let p0 = prefixed(prefix, k0);
    lemma_strip_prefix(prefix, k0, p0);
    let l = merged(errors_extend(a, p0, v0), prefix, m);
    let r = merged(a, prefix, m.insert(k0, v0));
    assert forall|x: Seq<char>| #[trigger] l.contains_key(x) == r.contains_key(x) && (l.contains_key(x) ==> l[x] == r[x]) by {
        lemma_strip_prefix(prefix, k0, x);
        if x == p0 {
            assert(errors_at(m.insert(k0, v0), k0) == v0);
            assert(errors_at(m, k0) =~= Seq::<ErrorModel>::empty());
            assert(l[x] =~= r[x]);
        } else {
            if let Some(f) = strip_prefix(prefix, x) {
                assert(f != k0);
            }
        }
    }
    assert(l =~= r);
}

/// Merging no errors changes nothing.
pub proof fn lemma_merge_empty(a: ErrorsModel, prefix: Seq<char>)
    ensures
        merged(a, prefix, Map::empty()) == a,
{
    let l = merged(a, prefix, Map::empty());
    assert forall|x: Seq<char>| #[trigger] l.contains_key(x) == a.contains_key(x) && (l.contains_key(x) ==> l[x] == a[x]) by {
        if l.contains_key(x) {
            assert(l[x] =~= a[x]);
        }
    }
    assert(l =~= a);
}

/// A path that is not under `prefix` keeps exactly the errors it had.
pub proof fn lemma_merged_elsewhere(a: ErrorsModel, prefix: Seq<char>, b: ErrorsModel, k: Seq<char>)
    requires
        strip_prefix(prefix, k) is None,
    ensures
        errors_at(merged(a, prefix, b), k) == errors_at(a, k),
{
    if a.contains_key(k) {
        assert(errors_at(merged(a, prefix, b), k) =~= errors_at(a, k));
    }
}

/// Each error of the merged errors lands under its field's path below
/// `prefix`, after the errors already recorded there.
pub proof fn lemma_merged_under_prefix(a: ErrorsModel, prefix: Seq<char>, b: ErrorsModel, f: Seq<char>)
    ensures
        errors_at(merged(a, prefix, b), prefixed(prefix, f)) == errors_at(a, prefixed(prefix, f)) + errors_at(b, f),
{
    lemma_strip_prefix(prefix, f, prefixed(prefix, f));
    let k = prefixed(prefix, f);
    if !merged(a, prefix, b).contains_key(k) {
        assert(errors_at(a, k) + errors_at(b, f) =~= Seq::<ErrorModel>::empty());
    }
}

/// All validation errors, keyed by field path (dot notation).
#[derive(Debug)]
pub struct ValidationErrors {
    errors: Vec<(String, Vec<ValidationError>)>,
}

impl ValidationErrors {
    /// The (field, errors) entries in the order the fields were first recorded.
    pub closed spec fn entries(&self) -> Seq<(Seq<char>, Seq<ErrorModel>)> {
        entries_model(self.errors@)
    }

    #[verifier::type_invariant]
    closed spec fn inv(&self) -> bool {
        &&& distinct_keys(self.entries())
        &&& forall|i: int| 0 <= i < self.entries().len() ==> #[trigger] self.entries()[i].1.len() > 0
    }
}

impl View for ValidationErrors {
    type V = ErrorsModel;

    closed spec fn view(&self) -> ErrorsModel {
        pairs_to_map(self.entries())
    }
}

/// Facts about the model of well-formed entries.
proof fn lemma_entries_wf(s: Seq<(Seq<char>, Seq<ErrorModel>)>)
    requires
        distinct_keys(s),
        forall|i: int| 0 <= i < s.len() ==> #[trigger] s[i].1.len() > 0,
    ensures
        errors_model_wf(pairs_to_map(s)),
        pairs_to_map(s) =~= Map::<Seq<char>, Seq<ErrorModel>>::empty() <==> s.len() == 0,
{
    lemma_pairs_to_map(s);
    let m = pairs_to_map(s);
    assert forall|k: Seq<char>| #[trigger] m.contains_key(k) implies m[k].len() > 0 by {
        let i = choose|i: int| 0 <= i < s.len() && s[i].0 == k;
    }
    if s.len() > 0 {
        assert(m.contains_key(s[0].0));
    }
}

/// Appends `errs` to the entry of `key` in `v`, or adds an entry for `key`.
fn extend_entries(v: &mut Vec<(String, Vec<ValidationError>)>, key: String, errs: Vec<ValidationError>)
    requires
        distinct_keys(entries_model(old(v)@)),
        forall|i: int| 0 <= i < old(v)@.len() ==> #[trigger] entries_model(old(v)@)[i].1.len() > 0,
        errs@.len() > 0,
    ensures
        distinct_keys(entries_model(final(v)@)),
        forall|i: int| 0 <= i < final(v)@.len() ==> #[trigger] entries_model(final(v)@)[i].1.len() > 0,
        pairs_to_map(entries_model(final(v)@)) == errors_extend(
            pairs_to_map(entries_model(old(v)@)), key@, errors_list_model(errs@)),
        final(v)@.len() >= old(v)@.len(),
        forall|i: int| 0 <= i < old(v)@.len() ==> #[trigger] final(v)@[i].0@ == old(v)@[i].0@,
{
    let ghost s0 = entries_model(v@);
    let ghost e = errors_list_model(errs@);
    proof {
        lemma_pairs_to_map(s0);
    }
    match find_key(v, key.as_str()) {
        Some(i) => {
            let (k, mut list) = v.remove(i);
            let mut errs = errs;
            list.append(&mut errs);
            v.insert(i, (k, list));
            proof {
                let s1 = entries_model(v@);
                assert(s0[i as int].0 == key@);
                assert(errors_list_model(v@[i as int].1@) =~= s0[i as int].1 + e);
                assert(s1 =~= s0.update(i as int, (key@, s0[i as int].1 + e)));
                lemma_pairs_to_map_update(s0, i as int, s0[i as int].1 + e);
                assert(errors_at(pairs_to_map(s0), key@) == s0[i as int].1);
                assert(forall|j: int| 0 <= j < v@.len() ==> #[trigger] v@[j].0@ == s1[j].0);
            }
        },
        None => {
            v.push((key, errs));
            proof {
                let s1 = entries_model(v@);
                assert(s1 =~= s0.push((key@, e)));
                lemma_pairs_to_map_push(s0, key@, e);
                assert(!pairs_to_map(s0).contains_key(key@)) by {
                    if pairs_to_map(s0).contains_key(key@) {
                        let j = choose|j: int| 0 <= j < s0.len() && s0[j].0 == key@;
                    }
                }
                assert(errors_at(pairs_to_map(s0), key@) =~= Seq::<ErrorModel>::empty());
                assert(errors_at(pairs_to_map(s0), key@) + e =~= e);
                assert(forall|j: int| 0 <= j < v@.len() ==> #[trigger] v@[j].0@ == s1[j].0);
            }
        },
    }
}

impl ValidationErrors {
    /// No errors.
    pub fn new() -> (r: Self)
        ensures
            r@ == Map::<Seq<char>, Seq<ErrorModel>>::empty(),
    {
        let r = ValidationErrors { errors: Vec::new() };
        assert(r.entries() =~= Seq::<(Seq<char>, Seq<ErrorModel>)>::empty());
        r
    }

    /// The model is well formed: finitely many paths, none without errors.
    pub fn lemma_wf(&self)
        ensures
            errors_model_wf(self@),
    {
        proof {
            use_type_invariant(self);
            lemma_entries_wf(self.entries());
        }
    }

    /// Records `error` on `field`, after the errors already there.
    pub fn add(&mut self, field: &str, error: ValidationError)
        ensures
            final(self)@ == old(self)@.insert(field@, errors_at(old(self)@, field@).push(error@)),
    {
        proof {
            use_type_invariant(&*self);
        }
        let mut errs = vec![error];
        let ghost e = errors_list_model(errs@);
        assert(e =~= seq![error@]);
        let mut v = Vec::new();
        std::mem::swap(&mut v, &mut self.errors);
        extend_entries(&mut v, field.to_string(), errs);
        self.errors = v;
        assert(errors_at(old(self)@, field@) + seq![error@] =~= errors_at(old(self)@, field@).push(error@));
    }

    /// No field has an error.
    pub fn is_empty(&self) -> (r: bool)
        ensures
            r == (self@ == Map::<Seq<char>, Seq<ErrorModel>>::empty()),
    {
        proof {
            use_type_invariant(self);
            lemma_entries_wf(self.entries());
        }
        self.errors.len() == 0
    }

    /// The (field path, errors) entries; no path occurs twice.
    pub fn field_errors(&self) -> (r: &Vec<(String, Vec<ValidationError>)>)
        ensures
            pairs_to_map(entries_model(r@)) == self@,
            distinct_keys(entries_model(r@)),
    {
        proof {
            use_type_invariant(self);
        }
        &self.errors
    }

    /// Merges `other` into `self`, placing each of its field paths under
    /// `prefix` (`address` turns `city` into `address.city`).
    pub fn merge_with_prefix(&mut self, prefix: &str, other: ValidationErrors)
        ensures
            final(self)@ == merged(old(self)@, prefix@, other@),
    {
        proof {
            use_type_invariant(&*self);
            use_type_invariant(&other);
        }
        let mut v = Vec::new();
        std::mem::swap(&mut v, &mut self.errors);
        let ValidationErrors { errors: mut rest } = other;
        let ghost target = merged(old(self)@, prefix@, pairs_to_map(entries_model(rest@)));
        while rest.len() > 0
            invariant
                distinct_keys(entries_model(v@)),
                forall|i: int| 0 <= i < v@.len() ==> #[trigger] entries_model(v@)[i].1.len() > 0,
                distinct_keys(entries_model(rest@)),
                forall|i: int| 0 <= i < rest@.len() ==> #[trigger] entries_model(rest@)[i].1.len() > 0,
                merged(pairs_to_map(entries_model(v@)), prefix@, pairs_to_map(entries_model(rest@))) == target,
            decreases rest@.len(),
        {
            let ghost r0 = entries_model(rest@);
            let ghost before = pairs_to_map(entries_model(v@));
            let ghost rest_before = rest@;
            let (field, errs) = rest.remove(0);
            let key = if prefix.unicode_len() == 0 {
                field
            } else {
                let mut k = prefix.to_string();
                k.append(".");
                k.append(field.as_str());
                k
            };
            proof {
                reveal_strlit(".");
                assert(key@ == prefixed(prefix@, field@));
                assert(entries_model(rest@) =~= r0.drop_first());
                assert(r0[0] == (field@, errors_list_model(errs@)));
                assert(rest@.len() == r0.len() - 1);
                assert(forall|i: int| 0 <= i < rest@.len() ==> #[trigger] entries_model(rest@)[i] == r0[i + 1]);
                assert(errs@.len() > 0) by {
                    assert(r0[0].1.len() > 0);
                }
                lemma_pairs_to_map(r0);
                lemma_pairs_to_map(r0.drop_first());
                assert(!pairs_to_map(r0.drop_first()).contains_key(field@)) by {
                    if pairs_to_map(r0.drop_first()).contains_key(field@) {
                        let j = choose|j: int| 0 <= j < r0.drop_first().len() && r0.drop_first()[j].0 == field@;
                        assert(r0[j + 1].0 == r0[0].0);
                    }
                }
                lemma_merge_step(before, prefix@, pairs_to_map(r0.drop_first()), field@, errors_list_model(errs@));
            }
            extend_entries(&mut v, key, errs);
        }
        proof {
            assert(entries_model(rest@) =~= Seq::<(Seq<char>, Seq<ErrorModel>)>::empty());
            lemma_merge_empty(pairs_to_map(entries_model(v@)), prefix@);
        }
        self.errors = v;
    }
}


/// Copies of the errors in `v`.
fn clone_errors(v: &Vec<ValidationError>) -> (r: Vec<ValidationError>)
    ensures
        errors_list_model(r@) == errors_list_model(v@),
{
    let mut out: Vec<ValidationError> = Vec::new();
    let mut i: usize = 0;
    while i < v.len()
        invariant
            i <= v@.len(),
            out@.len() == i,
            errors_list_model(out@) == errors_list_model(v@).take(i as int),
        decreases v@.len() - i,
    {
        let e = v[i].clone();
        assert(e@ == v@[i as int]@);
        out.push(e);
        assert(errors_list_model(out@)[i as int] == errors_list_model(v@)[i as int]);
        assert(errors_list_model(out@) =~= errors_list_model(v@).take(i + 1));
        i = i + 1;
    }
    assert(errors_list_model(v@).take(i as int) =~= errors_list_model(v@));
    out
}

impl Clone for ValidationErrors {
    fn clone(&self) -> (r: Self)
        ensures
            r@ == self@,
    {
        proof {
            use_type_invariant(self);
        }
        let mut out: Vec<(String, Vec<ValidationError>)> = Vec::new();
        let mut i: usize = 0;
        while i < self.errors.len()
            invariant
                i <= self.errors@.len(),
                out@.len() == i,
                entries_model(out@) == entries_model(self.errors@).take(i as int),
            decreases self.errors@.len() - i,
        {
            let k = self.errors[i].0.clone();
            let es = clone_errors(&self.errors[i].1);
            out.push((k, es));
            assert(entries_model(out@)[i as int] == entries_model(self.errors@)[i as int]);
            assert(entries_model(out@) =~= entries_model(self.errors@).take(i + 1));
            i = i + 1;
        }
        assert(entries_model(self.errors@).take(i as int) =~= entries_model(self.errors@));
        ValidationErrors { errors: out }
    }
}

impl Default for ValidationErrors {
    fn default() -> (r: Self)
        ensures
            r@ == Map::<Seq<char>, Seq<ErrorModel>>::empty(),
    {
        ValidationErrors::new()
    }
}


/// The messages of a list of errors.
pub open spec fn messages_of(errs: Seq<ErrorModel>) -> Seq<Seq<char>> {
    errs.map_values(|e: ErrorModel| e.message)
}

/// The model of a list of (field, messages) entries.
pub open spec fn messages_entries_model(v: Seq<(String, Vec<String>)>) -> Seq<(Seq<char>, Seq<Seq<char>>)> {
    v.map_values(|p: (String, Vec<String>)| (p.0@, p.1@.map_values(|m: String| m@)))
}

/// The model of a list of (field, message) entries.
pub open spec fn string_pairs_model(v: Seq<(String, String)>) -> Seq<(Seq<char>, Seq<char>)> {
    v.map_values(|p: (String, String)| (p.0@, p.1@))
}

/// The first message of a list of errors.
pub open spec fn first_message_of(errs: Seq<ErrorModel>) -> Seq<char> {
    errs[0].message
}

/// `k: message` for every error of every entry, in order.
pub open spec fn display_lines(s: Seq<(Seq<char>, Seq<ErrorModel>)>) -> Seq<Seq<char>>
    decreases s.len(),
{
    if s.len() == 0 {
        Seq::empty()
    } else {
        display_lines(s.drop_last()) + s.last().1.map_values(
            |e: ErrorModel| s.last().0 + seq![':', ' '] + e.message,
        )
    }
}

/// `lines` joined by `; `.
pub open spec fn join_lines(lines: Seq<Seq<char>>) -> Seq<char>
    decreases lines.len(),
{
    if lines.len() == 0 {
        Seq::empty()
    } else if lines.len() == 1 {
        lines[0]
    } else {
        join_lines(lines.drop_last()) + seq![';', ' '] + lines.last()
    }
}

/// The messages of `v`.
fn messages_list(v: &Vec<ValidationError>) -> (r: Vec<String>)
    ensures
        r@.map_values(|m: String| m@) == messages_of(errors_list_model(v@)),
{
    let mut out: Vec<String> = Vec::new();
    let mut i: usize = 0;
    while i < v.len()
        invariant
            i <= v@.len(),
            out@.len() == i,
            out@.map_values(|m: String| m@) == messages_of(errors_list_model(v@)).take(i as int),
        decreases v@.len() - i,
    {
        let m = v[i].message.clone();
        out.push(m);
        assert(out@.map_values(|m: String| m@) =~= messages_of(errors_list_model(v@)).take(i + 1));
        i = i + 1;
    }
    assert(messages_of(errors_list_model(v@)).take(i as int) =~= messages_of(errors_list_model(v@)));
    out
}

impl ValidationErrors {
    /// The messages grouped by field path.
    pub fn messages(&self) -> (r: Vec<(String, Vec<String>)>)
        ensures
            pairs_to_map(messages_entries_model(r@)) == self@.map_values(|errs: Seq<ErrorModel>| messages_of(errs)),
            distinct_keys(messages_entries_model(r@)),
    {
        proof {
            use_type_invariant(self);
        }
        let ghost target = self.entries().map_values(|p: (Seq<char>, Seq<ErrorModel>)| (p.0, messages_of(p.1)));
        let mut out: Vec<(String, Vec<String>)> = Vec::new();
        let mut i: usize = 0;
        while i < self.errors.len()
            invariant
                i <= self.errors@.len(),
                out@.len() == i,
                target.len() == self.errors@.len(),
                target == self.entries().map_values(|p: (Seq<char>, Seq<ErrorModel>)| (p.0, messages_of(p.1))),
                messages_entries_model(out@) == target.take(i as int),
            decreases self.errors@.len() - i,
        {
            let k = self.errors[i].0.clone();
            let ms = messages_list(&self.errors[i].1);
            out.push((k, ms));
            assert(self.entries()[i as int] == (self.errors@[i as int].0@, errors_list_model(self.errors@[i as int].1@)));
            assert(target[i as int] == (self.entries()[i as int].0, messages_of(self.entries()[i as int].1)));
            assert(messages_entries_model(out@)[i as int] == (k@, ms@.map_values(|m: String| m@)));
            assert(messages_entries_model(out@)[i as int] == target[i as int]);
            assert(messages_entries_model(out@) =~= target.take(i + 1));
            i = i + 1;
        }
        proof {
            assert(target.take(i as int) =~= target);
            lemma_pairs_to_map_values(self.entries(), |errs: Seq<ErrorModel>| messages_of(errs));
            assert(target =~= self.entries().map_values(
                |p: (Seq<char>, Seq<ErrorModel>)| (p.0, (|errs: Seq<ErrorModel>| messages_of(errs))(p.1))));
            assert forall|a: int, b: int| 0 <= a < b < target.len() implies target[a].0 != target[b].0 by {
                assert(target[a].0 == self.entries()[a].0);
                assert(target[b].0 == self.entries()[b].0);
            }
        }
        out
    }

    /// The first message of every field path.
    pub fn first_messages(&self) -> (r: Vec<(String, String)>)
        ensures
            pairs_to_map(string_pairs_model(r@)) == self@.map_values(|errs: Seq<ErrorModel>| first_message_of(errs)),
            distinct_keys(string_pairs_model(r@)),
    {
        proof {
            use_type_invariant(self);
        }
        let ghost target = self.entries().map_values(|p: (Seq<char>, Seq<ErrorModel>)| (p.0, first_message_of(p.1)));
        let mut out: Vec<(String, String)> = Vec::new();
        let mut i: usize = 0;
        while i < self.errors.len()
            invariant
                i <= self.errors@.len(),
                out@.len() == i,
                target.len() == self.errors@.len(),
                target == self.entries().map_values(|p: (Seq<char>, Seq<ErrorModel>)| (p.0, first_message_of(p.1))),
                forall|j: int| 0 <= j < self.entries().len() ==> #[trigger] self.entries()[j].1.len() > 0,
                string_pairs_model(out@) == target.take(i as int),
            decreases self.errors@.len() - i,
        {
            assert(self.entries()[i as int].1.len() > 0);
            let k = self.errors[i].0.clone();
            let m = self.errors[i].1[0].message.clone();
            out.push((k, m));
            assert(self.entries()[i as int] == (self.errors@[i as int].0@, errors_list_model(self.errors@[i as int].1@)));
            assert(target[i as int] == (self.entries()[i as int].0, first_message_of(self.entries()[i as int].1)));
            assert(errors_list_model(self.errors@[i as int].1@)[0] == self.errors@[i as int].1@[0]@);
            assert(string_pairs_model(out@)[i as int] == target[i as int]);
            assert(string_pairs_model(out@) =~= target.take(i + 1));
            i = i + 1;
        }
        proof {
            assert(target.take(i as int) =~= target);
            lemma_pairs_to_map_values(self.entries(), |errs: Seq<ErrorModel>| first_message_of(errs));
            assert(target =~= self.entries().map_values(
                |p: (Seq<char>, Seq<ErrorModel>)| (p.0, (|errs: Seq<ErrorModel>| first_message_of(errs))(p.1))));
            assert forall|a: int, b: int| 0 <= a < b < target.len() implies target[a].0 != target[b].0 by {
                assert(target[a].0 == self.entries()[a].0);
                assert(target[b].0 == self.entries()[b].0);
            }
        }
        out
    }

    /// `field: message` for every recorded error, joined by `; `; fields come
    /// in some order, the errors of one field in the order recorded.
    pub fn to_display_string(&self) -> (r: String)
        ensures
            exists|order: Seq<(Seq<char>, Seq<ErrorModel>)>|
                distinct_keys(order) && pairs_to_map(order) == self@
                    && r@ == join_lines(display_lines(order)),
    {
        proof {
            use_type_invariant(self);
        }
        let mut out = String::new();
        let mut first = true;
        let mut i: usize = 0;
        let ghost mut lines: Seq<Seq<char>> = Seq::empty();
        while i < self.errors.len()
            invariant
                i <= self.errors@.len(),
                lines == display_lines(self.entries().take(i as int)),
                first == (lines.len() == 0),
                out@ == join_lines(lines),
            decreases self.errors@.len() - i,
        {
            let ghost lines_i = lines;
            let mut j: usize = 0;
            while j < self.errors[i].1.len()
                invariant
                    i < self.errors@.len(),
                    j <= self.errors@[i as int].1@.len(),
                    lines == lines_i + self.entries()[i as int].1.take(j as int).map_values(
                        |e: ErrorModel| self.entries()[i as int].0 + seq![':', ' '] + e.message),
                    first == (lines.len() == 0),
                    out@ == join_lines(lines),
                decreases self.errors@[i as int].1@.len() - j,
            {
                let ghost prev = lines;
                let ghost line = self.entries()[i as int].0 + seq![':', ' '] + self.entries()[i as int].1[j as int].message;
                if !first {
                    out.append("; ");
                }
                out.append(self.errors[i].0.as_str());
                out.append(": ");
                out.append(self.errors[i].1[j].message.as_str());
                first = false;
                proof {
                    reveal_strlit("; ");
                    reveal_strlit(": ");
                    lines = prev.push(line);
                    assert(lines.drop_last() =~= prev);
                    if prev.len() == 0 {
                        assert(out@ =~= line);
                    } else {
                        assert(out@ =~= join_lines(prev) + seq![';', ' '] + line);
                    }
                    assert(self.entries()[i as int].1.take(j + 1) =~= self.entries()[i as int].1.take(j as int).push(
                        self.entries()[i as int].1[j as int]));
                    assert(lines =~= lines_i + self.entries()[i as int].1.take(j + 1).map_values(
                        |e: ErrorModel| self.entries()[i as int].0 + seq![':', ' '] + e.message));
                }
                j = j + 1;
            }
            proof {
                assert(self.entries()[i as int].1.take(j as int) =~= self.entries()[i as int].1);
                assert(self.entries().take(i + 1).drop_last() =~= self.entries().take(i as int));
            }
            i = i + 1;
        }
        proof {
            assert(self.entries().take(i as int) =~= self.entries());
        }
        out
    }
}

} // verus!
