//! The shared cookie jar, keyed by origin, and the bridge that rescopes
//! cookies from one origin to another.
//!
//! The jar never holds two entries with the same `(origin, name)` pair:
//! setting a cookie replaces the entry in place. Rescoping copies every
//! cookie of the source origin into the target origin; it is a copy, not a
//! move, and doing it twice leaves the jar exactly as doing it once.

use vstd::prelude::*;

verus! {

/// One cookie as stored in the jar.
pub struct CookieEntry {
    pub origin: String,
    pub name: String,
    pub value: String,
}

/// The mathematical image of one cookie entry.
pub struct EntryModel {
    pub origin: Seq<char>,
    pub name: Seq<char>,
    pub value: Seq<char>,
}

impl View for CookieEntry {
    type V = EntryModel;

    open spec fn view(&self) -> EntryModel {
        EntryModel { origin: self.origin@, name: self.name@, value: self.value@ }
    }
}

impl CookieEntry {
    /// Copy of this entry.
    pub fn duplicate(&self) -> (r: CookieEntry)
        ensures
            r@ == self@,
    {
        CookieEntry {
            origin: self.origin.clone(),
            name: self.name.clone(),
            value: self.value.clone(),
        }
    }
}

/// Two entries share their `(origin, name)` key.
pub open spec fn same_key(a: EntryModel, b: EntryModel) -> bool {
    a.origin == b.origin && a.name == b.name
}

/// An entry has the given key.
pub open spec fn key_is(e: EntryModel, origin: Seq<char>, name: Seq<char>) -> bool {
    e.origin == origin && e.name == name
}

/// Index of the first entry with the given key, or -1.
pub open spec fn find_idx(s: Seq<EntryModel>, origin: Seq<char>, name: Seq<char>) -> int
    decreases s.len(),
{
    if s.len() == 0 {
        -1
    } else if key_is(s[0], origin, name) {
        0
    } else {
        let r = find_idx(s.drop_first(), origin, name);
        if r < 0 {
            -1
        } else {
            r + 1
        }
    }
}

/// No two entries of the jar share a key.
pub open spec fn jar_wf(s: Seq<EntryModel>) -> bool {
    forall|i: int, j: int| 0 <= i < j < s.len() ==> !same_key(#[trigger] s[i], #[trigger] s[j])
}

/// The jar after one cookie is set: replace the entry with the same key, or
/// append a new one.
pub open spec fn apply_set(
    s: Seq<EntryModel>,
    origin: Seq<char>,
    name: Seq<char>,
    value: Seq<char>,
) -> Seq<EntryModel> {
    let f = find_idx(s, origin, name);
    if f >= 0 {
        s.update(f, EntryModel { origin, name, value })
    } else {
        s.push(EntryModel { origin, name, value })
    }
}

/// The entries of the jar scoped to one origin, in jar order.
pub open spec fn cookies_of(s: Seq<EntryModel>, origin: Seq<char>) -> Seq<EntryModel>
    decreases s.len(),
{
    if s.len() == 0 {
        Seq::empty()
    } else {
        let rest = cookies_of(s.drop_first(), origin);
        if s[0].origin == origin {
            seq![s[0]] + rest
        } else {
            rest
        }
    }
}

/// Set one cookie per pair under the target origin, in order.
pub open spec fn apply_pairs(
    s: Seq<EntryModel>,
    pairs: Seq<EntryModel>,
    to: Seq<char>,
) -> Seq<EntryModel>
    decreases pairs.len(),
{
    if pairs.len() == 0 {
        s
    } else {
        apply_pairs(apply_set(s, to, pairs[0].name, pairs[0].value), pairs.drop_first(), to)
    }
}

/// The jar after every cookie of `from` is copied into the scope of `to`.
pub open spec fn rescope_spec(s: Seq<EntryModel>, from: Seq<char>, to: Seq<char>) -> Seq<
    EntryModel,
> {
    apply_pairs(s, cookies_of(s, from), to)
}

proof fn lemma_find_idx_props(s: Seq<EntryModel>, origin: Seq<char>, name: Seq<char>)
    ensures
        find_idx(s, origin, name) == -1 <==> (forall|i: int|
            0 <= i < s.len() ==> !key_is(#[trigger] s[i], origin, name)),
        find_idx(s, origin, name) != -1 ==> {
            let f = find_idx(s, origin, name);
            &&& 0 <= f < s.len()
            &&& key_is(s[f], origin, name)
            &&& forall|i: int| 0 <= i < f ==> !key_is(#[trigger] s[i], origin, name)
        },
    decreases s.len(),
{
    if s.len() > 0 {
        lemma_find_idx_props(s.drop_first(), origin, name);
        if !key_is(s[0], origin, name) {
            assert(forall|i: int|
                1 <= i < s.len() ==> s.drop_first()[i - 1] == #[trigger] s[i]);
        }
    }
}

proof fn lemma_apply_set_wf(s: Seq<EntryModel>, origin: Seq<char>, name: Seq<char>, value: Seq<char>)
    requires
        jar_wf(s),
    ensures
        jar_wf(apply_set(s, origin, name, value)),
        apply_set(s, origin, name, value).contains(EntryModel { origin, name, value }),
        forall|e: EntryModel|
            s.contains(e) && !key_is(e, origin, name) ==> apply_set(
                s,
                origin,
                name,
                value,
            ).contains(e),
{
    lemma_find_idx_props(s, origin, name);
    let f = find_idx(s, origin, name);
    let e2 = EntryModel { origin, name, value };
    let s2 = apply_set(s, origin, name, value);
    if f >= 0 {
        assert(s2[f] == e2);
        assert(s2.contains(e2));
        assert forall|e: EntryModel| s.contains(e) && !key_is(e, origin, name) implies s2.contains(
            e,
        ) by {
            let i = choose|i: int| 0 <= i < s.len() && s[i] == e;
            assert(i != f);
            assert(s2[i] == e);
        }
        assert forall|i: int, j: int| 0 <= i < j < s2.len() implies !same_key(
            #[trigger] s2[i],
            #[trigger] s2[j],
        ) by {
            if i == f {
                assert(!same_key(s[i], s[j]));
                assert(same_key(s2[i], s[i]));
            } else if j == f {
                assert(!same_key(s[i], s[j]));
                assert(same_key(s2[j], s[j]));
            }
        }
    } else {
        assert(s2.last() == e2);
        assert(s2.contains(e2));
        assert forall|e: EntryModel| s.contains(e) && !key_is(e, origin, name) implies s2.contains(
            e,
        ) by {
            let i = choose|i: int| 0 <= i < s.len() && s[i] == e;
            assert(s2[i] == e);
        }
        assert forall|i: int, j: int| 0 <= i < j < s2.len() implies !same_key(
            #[trigger] s2[i],
            #[trigger] s2[j],
        ) by {
            if j == s.len() {
                assert(!key_is(s[i], origin, name));
            }
        }
    }
}

proof fn lemma_cookies_of_update(s: Seq<EntryModel>, i: int, e: EntryModel, origin: Seq<char>)
    requires
        0 <= i < s.len(),
        s[i].origin != origin,
        e.origin != origin,
    ensures
        cookies_of(s.update(i, e), origin) == cookies_of(s, origin),
    decreases s.len(),
{
    let t = s.update(i, e);
    if i == 0 {
        assert(t.drop_first() =~= s.drop_first());
    } else {
        assert(t[0] == s[0]);
        assert(t.drop_first() =~= s.drop_first().update(i - 1, e));
        lemma_cookies_of_update(s.drop_first(), i - 1, e, origin);
    }
}

proof fn lemma_cookies_of_push(s: Seq<EntryModel>, e: EntryModel, origin: Seq<char>)
    requires
        e.origin != origin,
    ensures
        cookies_of(s.push(e), origin) == cookies_of(s, origin),
    decreases s.len(),
{
    let t = s.push(e);
    if s.len() == 0 {
        assert(t.drop_first() =~= s);
    } else {
        assert(t[0] == s[0]);
        assert(t.drop_first() =~= s.drop_first().push(e));
        lemma_cookies_of_push(s.drop_first(), e, origin);
    }
}

proof fn lemma_cookies_of_members(s: Seq<EntryModel>, origin: Seq<char>)
    ensures
        forall|k: int|
            0 <= k < cookies_of(s, origin).len() ==> s.contains(
                #[trigger] cookies_of(s, origin)[k],
            ) && cookies_of(s, origin)[k].origin == origin,
        jar_wf(s) ==> forall|k1: int, k2: int|
            0 <= k1 < k2 < cookies_of(s, origin).len() ==> (#[trigger] cookies_of(
                s,
                origin,
            )[k1]).name != (#[trigger] cookies_of(s, origin)[k2]).name,
    decreases s.len(),
{
    if s.len() > 0 {
        let rest = s.drop_first();
        lemma_cookies_of_members(rest, origin);
        let c = cookies_of(s, origin);
        let cr = cookies_of(rest, origin);
        assert(forall|e: EntryModel| rest.contains(e) ==> s.contains(e)) by {
            assert forall|e: EntryModel| rest.contains(e) implies s.contains(e) by {
                let i = choose|i: int| 0 <= i < rest.len() && rest[i] == e;
                assert(s[i + 1] == e);
            }
        }
        if jar_wf(s) {
            assert(jar_wf(rest)) by {
                assert(forall|i: int|
                    0 <= i < rest.len() ==> #[trigger] rest[i] == s[i + 1]);
            }
            if s[0].origin == origin {
                assert(c[0] == s[0]);
                assert forall|k1: int, k2: int|
                    0 <= k1 < k2 < c.len() implies (#[trigger] c[k1]).name != (
                #[trigger] c[k2]).name by {
                    if k1 == 0 {
                        let e2 = cr[k2 - 1];
                        assert(c[k2] == e2);
                        let i = choose|i: int| 0 <= i < rest.len() && rest[i] == e2;
                        assert(s[i + 1] == e2);
                        assert(!same_key(s[0], s[i + 1]));
                        assert(e2.origin == origin);
                    } else {
                        assert(c[k1] == cr[k1 - 1] && c[k2] == cr[k2 - 1]);
                    }
                }
            }
        }
    }
}

proof fn lemma_apply_set_same_entry(s: Seq<EntryModel>, e: EntryModel)
    requires
        jar_wf(s),
        s.contains(e),
    ensures
        apply_set(s, e.origin, e.name, e.value) == s,
{
    lemma_find_idx_props(s, e.origin, e.name);
    let f = find_idx(s, e.origin, e.name);
    let i = choose|i: int| 0 <= i < s.len() && s[i] == e;
    assert(key_is(s[i], e.origin, e.name));
    assert(f != -1);
    assert(s[f] == e) by {
        if f != i {
            assert(same_key(s[f], s[i]));
        }
    }
    assert(s.update(f, EntryModel { origin: e.origin, name: e.name, value: e.value }) =~= s);
}

proof fn lemma_apply_pairs_id(s: Seq<EntryModel>, pairs: Seq<EntryModel>, to: Seq<char>)
    requires
        jar_wf(s),
        forall|k: int|
            0 <= k < pairs.len() ==> s.contains(
                EntryModel {
                    origin: to,
                    name: (#[trigger] pairs[k]).name,
                    value: pairs[k].value,
                },
            ),
    ensures
        apply_pairs(s, pairs, to) == s,
    decreases pairs.len(),
{
    if pairs.len() > 0 {
        let e = EntryModel { origin: to, name: pairs[0].name, value: pairs[0].value };
        lemma_apply_set_same_entry(s, e);
        assert(forall|k: int|
            0 <= k < pairs.drop_first().len() ==> #[trigger] pairs.drop_first()[k] == pairs[
                k + 1]);
        lemma_apply_pairs_id(s, pairs.drop_first(), to);
    }
}

proof fn lemma_apply_pairs_contains(s: Seq<EntryModel>, pairs: Seq<EntryModel>, to: Seq<char>)
    requires
        jar_wf(s),
        forall|k1: int, k2: int|
            0 <= k1 < k2 < pairs.len() ==> (#[trigger] pairs[k1]).name != (
            #[trigger] pairs[k2]).name,
    ensures
        jar_wf(apply_pairs(s, pairs, to)),
        forall|k: int|
            0 <= k < pairs.len() ==> apply_pairs(s, pairs, to).contains(
                EntryModel {
                    origin: to,
                    name: (#[trigger] pairs[k]).name,
                    value: pairs[k].value,
                },
            ),
    decreases pairs.len(),
{
    if pairs.len() > 0 {
        let e0 = EntryModel { origin: to, name: pairs[0].name, value: pairs[0].value };
        lemma_apply_set_wf(s, to, pairs[0].name, pairs[0].value);
        let s1 = apply_set(s, to, pairs[0].name, pairs[0].value);
        let rest = pairs.drop_first();
        assert(forall|k: int| 0 <= k < rest.len() ==> #[trigger] rest[k] == pairs[k + 1]);
        lemma_apply_pairs_contains(s1, rest, to);
        assert forall|k: int| 0 <= k < rest.len() implies !key_is(
            e0,
            to,
            (#[trigger] rest[k]).name,
        ) by {
            assert(pairs[0].name != pairs[k + 1].name);
        }
        lemma_apply_pairs_preserves(s1, rest, to, e0);
        assert forall|k: int| 0 <= k < pairs.len() implies apply_pairs(s, pairs, to).contains(
            EntryModel { origin: to, name: (#[trigger] pairs[k]).name, value: pairs[k].value },
        ) by {
            if k > 0 {
                assert(rest[k - 1] == pairs[k]);
            }
        }
    }
}

proof fn lemma_apply_pairs_preserves(
    s: Seq<EntryModel>,
    pairs: Seq<EntryModel>,
    to: Seq<char>,
    e: EntryModel,
)
    requires
        jar_wf(s),
        s.contains(e),
        forall|k: int| 0 <= k < pairs.len() ==> !key_is(e, to, (#[trigger] pairs[k]).name),
    ensures
        apply_pairs(s, pairs, to).contains(e),
    decreases pairs.len(),
{
    if pairs.len() > 0 {
        lemma_apply_set_wf(s, to, pairs[0].name, pairs[0].value);
        let s1 = apply_set(s, to, pairs[0].name, pairs[0].value);
        let rest = pairs.drop_first();
        assert(forall|k: int| 0 <= k < rest.len() ==> #[trigger] rest[k] == pairs[k + 1]);
        lemma_apply_pairs_preserves(s1, rest, to, e);
    }
}

proof fn lemma_apply_pairs_keeps_other(
    s: Seq<EntryModel>,
    pairs: Seq<EntryModel>,
    o: Seq<char>,
    to: Seq<char>,
)
    requires
        o != to,
    ensures
        cookies_of(apply_pairs(s, pairs, to), o) == cookies_of(s, o),
    decreases pairs.len(),
{
    if pairs.len() > 0 {
        let s1 = apply_set(s, to, pairs[0].name, pairs[0].value);
        let e = EntryModel { origin: to, name: pairs[0].name, value: pairs[0].value };
        lemma_find_idx_props(s, to, pairs[0].name);
        let f = find_idx(s, to, pairs[0].name);
        if f >= 0 {
            lemma_cookies_of_update(s, f, e, o);
        } else {
            lemma_cookies_of_push(s, e, o);
        }
        let rest = pairs.drop_first();
        assert(forall|k: int| 0 <= k < rest.len() ==> #[trigger] rest[k] == pairs[k + 1]);
        lemma_apply_pairs_keeps_other(s1, rest, o, to);
    }
}

/// LAW: rescoping is idempotent. Copying the cookies of `from` into the
/// scope of `to` a second time leaves the jar exactly as the first copy
/// left it — rescoping duplicates no entry and changes no value.
pub proof fn lemma_rescope_idempotent(s: Seq<EntryModel>, from: Seq<char>, to: Seq<char>)
    requires
        jar_wf(s),
    ensures
        rescope_spec(rescope_spec(s, from, to), from, to) == rescope_spec(s, from, to),
{
    let pairs = cookies_of(s, from);
    lemma_cookies_of_members(s, from);
    let r = apply_pairs(s, pairs, to);
    if from == to {
        assert forall|k: int| 0 <= k < pairs.len() implies s.contains(
            EntryModel { origin: to, name: (#[trigger] pairs[k]).name, value: pairs[k].value },
        ) by {
            assert(s.contains(pairs[k]) && pairs[k].origin == to);
            assert(EntryModel { origin: to, name: pairs[k].name, value: pairs[k].value }
                == pairs[k]);
        }
        lemma_apply_pairs_id(s, pairs, to);
        assert(r == s);
    } else {
        lemma_apply_pairs_keeps_other(s, pairs, from, to);
        assert(cookies_of(r, from) == pairs);
        lemma_apply_pairs_contains(s, pairs, to);
        lemma_apply_pairs_id(r, pairs, to);
    }
}

/// The `Cookie` header text for a list of scoped entries: `name=value`
/// pairs joined with `; `.
pub open spec fn header_of(entries: Seq<EntryModel>) -> Seq<char>
    decreases entries.len(),
{
    if entries.len() == 0 {
        Seq::empty()
    } else if entries.len() == 1 {
        entries[0].name + "="@ + entries[0].value
    } else {
        header_of(entries.drop_last()) + "; "@ + (entries.last().name + "="@
            + entries.last().value)
    }
}

/// LAW (rescoping is a copy, not a move): after a rescope from one origin
/// to another, the source origin's cookies are unchanged, every origin
/// other than the target is untouched, and every source cookie now also
/// exists under the target origin with the same name and value.
pub proof fn lemma_rescope_copies(s: Seq<EntryModel>, from: Seq<char>, to: Seq<char>)
    requires
        jar_wf(s),
    ensures
        cookies_of(rescope_spec(s, from, to), from) == cookies_of(s, from),
        forall|o: Seq<char>|
            o != to ==> #[trigger] cookies_of(rescope_spec(s, from, to), o) == cookies_of(s, o),
        forall|k: int|
            0 <= k < cookies_of(s, from).len() ==> rescope_spec(s, from, to).contains(
                EntryModel {
                    origin: to,
                    name: (#[trigger] cookies_of(s, from)[k]).name,
                    value: cookies_of(s, from)[k].value,
                },
            ),
{
    let pairs = cookies_of(s, from);
    lemma_cookies_of_members(s, from);
    let r = rescope_spec(s, from, to);
    assert forall|o: Seq<char>| o != to implies #[trigger] cookies_of(rescope_spec(s, from, to), o)
        == cookies_of(s, o) by {
        lemma_apply_pairs_keeps_other(s, pairs, o, to);
    }
    if from == to {
        assert forall|k: int| 0 <= k < pairs.len() implies s.contains(
            EntryModel { origin: to, name: (#[trigger] pairs[k]).name, value: pairs[k].value },
        ) by {
            assert(s.contains(pairs[k]) && pairs[k].origin == to);
            assert(EntryModel { origin: to, name: pairs[k].name, value: pairs[k].value }
                == pairs[k]);
        }
        lemma_apply_pairs_id(s, pairs, to);
        assert(r == s);
    } else {
        lemma_apply_pairs_contains(s, pairs, to);
    }
}

/// The models of a sequence of stored entries.
pub open spec fn entry_models(s: Seq<CookieEntry>) -> Seq<EntryModel> {
    s.map_values(|e: CookieEntry| e@)
}

/// Some entry of the jar is scoped to the given origin.
pub open spec fn has_origin(s: Seq<EntryModel>, origin: Seq<char>) -> bool {
    exists|i: int| 0 <= i < s.len() && (#[trigger] s[i]).origin == origin
}

/// The shared cookie jar: one value per `(origin, name)` pair.
pub struct CookieJar {
    pub entries: Vec<CookieEntry>,
}

impl View for CookieJar {
    type V = Seq<EntryModel>;

    open spec fn view(&self) -> Seq<EntryModel> {
        entry_models(self.entries@)
    }
}

impl CookieJar {
    /// An empty jar.
    pub fn new() -> (r: CookieJar)
        ensures
            r@ == Seq::<EntryModel>::empty(),
            jar_wf(r@),
    {
        let r = CookieJar { entries: Vec::new() };
        proof {
            assert(r@ =~= Seq::<EntryModel>::empty());
        }
        r
    }

    /// Position of the entry with the given key, if any.
    fn find_entry(&self, origin: &String, name: &String) -> (r: Option<usize>)
        ensures
            match r {
                Some(i) => i < self@.len() && i == find_idx(self@, origin@, name@),
                None => find_idx(self@, origin@, name@) == -1,
            },
    {
        let n = self.entries.len();
        let mut i: usize = 0;
        while i < n
            invariant
                i <= n,
                n == self.entries@.len(),
                self@.len() == n,
                forall|j: int| 0 <= j < i ==> !key_is(#[trigger] self@[j], origin@, name@),
            decreases n - i,
        {
            if self.entries[i].origin == *origin && self.entries[i].name == *name {
                proof {
                    assert(key_is(self@[i as int], origin@, name@));
                    lemma_find_idx_props(self@, origin@, name@);
                }
                return Some(i);
            }
            assert(!key_is(self@[i as int], origin@, name@));
            i = i + 1;
        }
        proof {
            lemma_find_idx_props(self@, origin@, name@);
        }
        None
    }

    /// Store one cookie: replace the entry with the same `(origin, name)`
    /// key, or append a new entry.
    pub fn set_cookie(&mut self, origin: String, name: String, value: String)
        requires
            jar_wf(old(self)@),
        ensures
            final(self)@ == apply_set(old(self)@, origin@, name@, value@),
            jar_wf(final(self)@),
    {
        let found = self.find_entry(&origin, &name);
        let e = CookieEntry { origin, name, value };
        let ghost em = e@;
        proof {
            lemma_apply_set_wf(old(self)@, em.origin, em.name, em.value);
        }
        match found {
            Some(i) => {
                self.entries[i] = e;
                proof {
                    assert(self@ =~= old(self)@.update(i as int, em));
                }
            },
            None => {
                self.entries.push(e);
                proof {
                    assert(self@ =~= old(self)@.push(em));
                }
            },
        }
    }

    /// The cookies scoped to one origin, in jar order.
    pub fn cookies_for(&self, origin: &String) -> (r: Vec<CookieEntry>)
        ensures
            entry_models(r@) == cookies_of(self@, origin@),
    {
        let mut r: Vec<CookieEntry> = Vec::new();
        let n = self.entries.len();
        let mut i: usize = 0;
        proof {
            assert(self@.skip(0) =~= self@);
            assert(entry_models(r@) + cookies_of(self@, origin@) =~= cookies_of(self@, origin@));
        }
        while i < n
            invariant
                i <= n,
                n == self.entries@.len(),
                self@.len() == n,
                cookies_of(self@, origin@) == entry_models(r@) + cookies_of(
                    self@.skip(i as int),
                    origin@,
                ),
            decreases n - i,
        {
            let ghost pre = self@.skip(i as int);
            assert(pre[0] == self@[i as int]);
            assert(pre.drop_first() =~= self@.skip(i + 1));
            if self.entries[i].origin == *origin {
                let ghost old_models = entry_models(r@);
                let e = self.entries[i].duplicate();
                let ghost em = e@;
                r.push(e);
                proof {
                    assert(entry_models(r@) =~= old_models.push(em));
                    assert(entry_models(r@) + cookies_of(self@.skip(i + 1), origin@)
                        =~= old_models + (seq![em] + cookies_of(self@.skip(i + 1), origin@)));
                }
            }
            i = i + 1;
        }
        assert(self@.skip(n as int) =~= Seq::<EntryModel>::empty());
        assert(entry_models(r@) + cookies_of(Seq::empty(), origin@) =~= entry_models(r@));
        r
    }

    /// Whether the jar holds any cookie for the given origin.
    pub fn has_cookie_for(&self, origin: &String) -> (r: bool)
        ensures
            r == has_origin(self@, origin@),
    {
        let n = self.entries.len();
        let mut i: usize = 0;
        while i < n
            invariant
                i <= n,
                n == self.entries@.len(),
                self@.len() == n,
                forall|j: int| 0 <= j < i ==> (#[trigger] self@[j]).origin != origin@,
            decreases n - i,
        {
            if self.entries[i].origin == *origin {
                assert(self@[i as int].origin == origin@);
                return true;
            }
            i = i + 1;
        }
        false
    }

    /// The `Cookie` header line for one origin: `name=value` pairs joined
    /// with `; `, in jar order.
    pub fn cookie_header(&self, origin: &String) -> (r: String)
        ensures
            r@ == header_of(cookies_of(self@, origin@)),
    {
        let cookies = self.cookies_for(origin);
        let ghost cm = entry_models(cookies@);
        let mut r = String::new();
        let mut i: usize = 0;
        assert(cm.take(0) =~= Seq::<EntryModel>::empty());
        while i < cookies.len()
            invariant
                i <= cookies@.len(),
                cm == entry_models(cookies@),
                cm.len() == cookies@.len(),
                r@ == header_of(cm.take(i as int)),
            decreases cookies@.len() - i,
        {
            if i > 0 {
                r.append("; ");
            }
            r.append(cookies[i].name.as_str());
            r.append("=");
            r.append(cookies[i].value.as_str());
            i = i + 1;
            proof {
                assert(cm.take(i as int).drop_last() =~= cm.take(i - 1));
                assert(cm.take(i as int).last() == cm[i - 1]);
                if i == 1 {
                    assert(r@ =~= cm[0].name + "="@ + cm[0].value);
                }
            }
        }
        assert(cm.take(cm.len() as int) =~= cm);
        r
    }

    /// Copy every cookie of `from` into the scope of `to`.
    ///
    /// LAW: together with `lemma_rescope_idempotent`, doing this twice with
    /// the same pair of origins leaves the jar as doing it once.
    pub fn rescope(&mut self, from: &String, to: &String)
        requires
            jar_wf(old(self)@),
        ensures
            final(self)@ == rescope_spec(old(self)@, from@, to@),
            jar_wf(final(self)@),
    {
        let pairs = self.cookies_for(from);
        let ghost pm = entry_models(pairs@);
        let n = pairs.len();
        let mut i: usize = 0;
        proof {
            assert(pm.skip(0) =~= pm);
        }
        while i < n
            invariant
                i <= n,
                n == pairs@.len(),
                pm == entry_models(pairs@),
                pm.len() == n,
                jar_wf(self@),
                apply_pairs(old(self)@, pm, to@) == apply_pairs(self@, pm.skip(i as int), to@),
            decreases n - i,
        {
            let ghost pre = pm.skip(i as int);
            assert(pre[0] == pm[i as int]);
            assert(pre.drop_first() =~= pm.skip(i + 1));
            assert(pm[i as int] == pairs@[i as int]@);
            self.set_cookie(to.clone(), pairs[i].name.clone(), pairs[i].value.clone());
            i = i + 1;
        }
        assert(pm.skip(n as int) =~= Seq::<EntryModel>::empty());
    }
}

} // verus!
