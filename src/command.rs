//! The build context that a rewriting callback fills: argument tokens and
//! environment overrides.
use vstd::prelude::*;

verus! {

/// Two byte strings hold the same bytes.
pub(crate) fn bytes_eq(a: &Vec<u8>, b: &Vec<u8>) -> (r: bool)
    ensures
        r == (a@ == b@),
{
    if a.len() != b.len() {
        return false;
    }
    let mut i: usize = 0;
    while i < a.len()
        invariant
            a.len() == b.len(),
            0 <= i <= a.len(),
            forall|j: int| 0 <= j < i ==> a@[j] == b@[j],
        decreases a.len() - i,
    {
        if a[i] != b[i] {
            return false;
        }
        i = i + 1;
    }
    assert(a@ =~= b@);
    true
}

/// The environment overrides as pairs of byte strings.
pub open spec fn env_pairs_view(v: Seq<(Vec<u8>, Vec<u8>)>) -> Seq<(Seq<u8>, Seq<u8>)> {
    v.map_values(|p: (Vec<u8>, Vec<u8>)| (p.0@, p.1@))
}

/// No two overrides name the same variable.
pub open spec fn keys_unique(envs: Seq<(Seq<u8>, Seq<u8>)>) -> bool {
    forall|i: int, j: int|
        0 <= i < envs.len() && 0 <= j < envs.len() && i != j ==> #[trigger] envs[i].0
            != #[trigger] envs[j].0
}

/// `i` is the first position of an override of `key`.
pub open spec fn is_first_key_at(envs: Seq<(Seq<u8>, Seq<u8>)>, key: Seq<u8>, i: int) -> bool {
    &&& 0 <= i < envs.len()
    &&& envs[i].0 == key
    &&& forall|j: int| 0 <= j < i ==> envs[j].0 != key
}

/// The overrides after setting `key` to `value`: an existing entry for `key`
/// is replaced in place, otherwise the pair is appended.
pub open spec fn env_set(envs: Seq<(Seq<u8>, Seq<u8>)>, key: Seq<u8>, value: Seq<u8>) -> Seq<
    (Seq<u8>, Seq<u8>),
> {
    if exists|i: int| is_first_key_at(envs, key, i) {
        let i = choose|i: int| is_first_key_at(envs, key, i);
        envs.update(i, (key, value))
    } else {
        envs.push((key, value))
    }
}

/// The overrides as a map from variable name to value.
pub open spec fn env_map(envs: Seq<(Seq<u8>, Seq<u8>)>) -> Map<Seq<u8>, Seq<u8>>
    decreases envs.len(),
{
    if envs.len() == 0 {
        Map::empty()
    } else {
        env_map(envs.drop_last()).insert(envs.last().0, envs.last().1)
    }
}

proof fn lemma_env_map_entries(envs: Seq<(Seq<u8>, Seq<u8>)>)
    requires
        keys_unique(envs),
    ensures
        forall|key: Seq<u8>|
            env_map(envs).dom().contains(key) <==> exists|j: int|
                0 <= j < envs.len() && (#[trigger] envs[j]).0 == key,
        forall|j: int| 0 <= j < envs.len() ==> env_map(envs)[(#[trigger] envs[j]).0] == envs[j].1,
    decreases envs.len(),
{
    if envs.len() > 0 {
        let rest = envs.drop_last();
        assert forall|i: int, j: int|
            0 <= i < rest.len() && 0 <= j < rest.len() && i != j implies #[trigger] rest[i].0
            != #[trigger] rest[j].0 by {
            assert(rest[i] == envs[i] && rest[j] == envs[j]);
        }
        lemma_env_map_entries(rest);
        let last = envs.len() - 1;
        assert(env_map(envs) == env_map(rest).insert(envs[last].0, envs[last].1));
        assert forall|key: Seq<u8>|
            env_map(envs).dom().contains(key) implies exists|j: int|
                0 <= j < envs.len() && (#[trigger] envs[j]).0 == key by {
            if key != envs[last].0 {
                assert(env_map(rest).dom().contains(key));
                let j = choose|j: int| 0 <= j < rest.len() && (#[trigger] rest[j]).0 == key;
                assert(envs[j] == rest[j]);
            } else {
                assert(envs[last].0 == key);
            }
        }
        assert forall|j: int| 0 <= j < envs.len() implies env_map(envs)[(#[trigger] envs[j]).0]
            == envs[j].1 by {
            if j < last {
                assert(envs[j] == rest[j]);
                assert(envs[j].0 != envs[last].0);
            }
        }
        assert forall|key: Seq<u8>|
            (exists|j: int| 0 <= j < envs.len() && (#[trigger] envs[j]).0 == key) implies env_map(
            envs,
        ).dom().contains(key) by {
            let j = choose|j: int| 0 <= j < envs.len() && (#[trigger] envs[j]).0 == key;
            if j < last {
                assert(rest[j] == envs[j]);
            }
        }
    }
}

/// Setting an override keeps the names unique, and on the map of overrides
/// the last write to a name wins.
pub proof fn lemma_env_set_last_write_wins(envs: Seq<(Seq<u8>, Seq<u8>)>, key: Seq<u8>, value: Seq<u8>)
    requires
        keys_unique(envs),
    ensures
        keys_unique(env_set(envs, key, value)),
        env_map(env_set(envs, key, value)) == env_map(envs).insert(key, value),
{
    let after = env_set(envs, key, value);
    lemma_env_map_entries(envs);
    if exists|i: int| is_first_key_at(envs, key, i) {
        let i = choose|i: int| is_first_key_at(envs, key, i);
        assert(after == envs.update(i, (key, value)));
        assert forall|a: int, b: int|
            0 <= a < after.len() && 0 <= b < after.len() && a != b implies #[trigger] after[a].0
            != #[trigger] after[b].0 by {
            assert(after[a].0 == envs[a].0 && after[b].0 == envs[b].0);
        }
        lemma_env_map_entries(after);
        assert forall|k: Seq<u8>| env_map(after).dom().contains(k) <==> env_map(envs).insert(
            key,
            value,
        ).dom().contains(k) by {
            if exists|j: int| 0 <= j < envs.len() && (#[trigger] envs[j]).0 == k {
                let j = choose|j: int| 0 <= j < envs.len() && (#[trigger] envs[j]).0 == k;
                assert(after[j].0 == k);
            }
            if exists|j: int| 0 <= j < after.len() && (#[trigger] after[j]).0 == k {
                let j = choose|j: int| 0 <= j < after.len() && (#[trigger] after[j]).0 == k;
                assert(envs[j].0 == k);
            }
        }
        assert forall|k: Seq<u8>| #[trigger] env_map(after).dom().contains(k) implies env_map(after)[k]
            == env_map(envs).insert(key, value)[k] by {
            let j = choose|j: int| 0 <= j < after.len() && (#[trigger] after[j]).0 == k;
            if j != i {
                assert(after[j] == envs[j]);
            }
        }
        assert(env_map(after) =~= env_map(envs).insert(key, value));
    } else {
        assert forall|j: int| 0 <= j < envs.len() implies (#[trigger] envs[j]).0 != key by {
            if envs[j].0 == key {
                assert(is_first_key_at(envs, key, j));
            }
        }
        assert(after == envs.push((key, value)));
        assert(after.drop_last() =~= envs);
        assert forall|a: int, b: int|
            0 <= a < after.len() && 0 <= b < after.len() && a != b implies #[trigger] after[a].0
            != #[trigger] after[b].0 by {
            if a < envs.len() {
                assert(after[a] == envs[a]);
            }
            if b < envs.len() {
                assert(after[b] == envs[b]);
            }
        }
    }
}

/// The arguments and environment overrides that a rewriting callback builds.
#[derive(Debug)]
pub struct CommandBuildContext {
    args: Vec<Vec<u8>>,
    envs: Vec<(Vec<u8>, Vec<u8>)>,
}

impl CommandBuildContext {
    /// The argument tokens, in order.
    pub closed spec fn arg_list(&self) -> Seq<Seq<u8>> {
        self.args@.map_values(|a: Vec<u8>| a@)
    }

    /// The environment overrides, in the order their names were first set.
    pub closed spec fn env_list(&self) -> Seq<(Seq<u8>, Seq<u8>)> {
        env_pairs_view(self.envs@)
    }

    /// A context with no arguments and no overrides.
    pub fn new() -> (r: Self)
        ensures
            r.arg_list() == Seq::<Seq<u8>>::empty(),
            r.env_list() == Seq::<(Seq<u8>, Seq<u8>)>::empty(),
    {
        let r = CommandBuildContext { args: Vec::new(), envs: Vec::new() };
        assert(r.arg_list() =~= Seq::<Seq<u8>>::empty());
        assert(r.env_list() =~= Seq::<(Seq<u8>, Seq<u8>)>::empty());
        r
    }

    /// The argument tokens and the overrides, taken out of the context.
    pub fn into_parts(self) -> (r: (Vec<Vec<u8>>, Vec<(Vec<u8>, Vec<u8>)>))
        ensures
            r.0@.map_values(|a: Vec<u8>| a@) == self.arg_list(),
            env_pairs_view(r.1@) == self.env_list(),
    {
        (self.args, self.envs)
    }

    /// Appends one argument token.
    pub fn arg(&mut self, a: Vec<u8>)
        ensures
            final(self).arg_list() == old(self).arg_list().push(a@),
            final(self).env_list() == old(self).env_list(),
    {
        self.args.push(a);
        assert(self.arg_list() =~= old(self).arg_list().push(a@));
    }

    /// Appends argument tokens, in order.
    pub fn args(&mut self, v: Vec<Vec<u8>>)
        ensures
            final(self).arg_list() == old(self).arg_list() + v@.map_values(|a: Vec<u8>| a@),
            final(self).env_list() == old(self).env_list(),
    {
        let mut i: usize = 0;
        while i < v.len()
            invariant
                0 <= i <= v.len(),
                self.arg_list() == old(self).arg_list() + v@.subrange(0, i as int).map_values(
                    |a: Vec<u8>| a@,
                ),
                self.env_list() == old(self).env_list(),
            decreases v.len() - i,
        {
            self.arg(v[i].clone());
            assert(v@.subrange(0, i + 1).map_values(|a: Vec<u8>| a@) =~= v@.subrange(
                0,
                i as int,
            ).map_values(|a: Vec<u8>| a@).push(v@[i as int]@));
            i = i + 1;
        }
        assert(v@.subrange(0, v.len() as int) =~= v@);
    }

    /// Sets the override of variable `key` to `value`; a later write to the
    /// same name replaces an earlier one.
    pub fn env(&mut self, key: Vec<u8>, value: Vec<u8>)
        ensures
            final(self).env_list() == env_set(old(self).env_list(), key@, value@),
            final(self).arg_list() == old(self).arg_list(),
    {
        let ghost key_view = key@;
        let ghost value_view = value@;
        let mut i: usize = 0;
        while i < self.envs.len()
            invariant
                0 <= i <= self.envs.len(),
                forall|j: int| 0 <= j < i ==> self.env_list()[j].0 != key_view,
                key@ == key_view,
                value@ == value_view,
                *self == *old(self),
            decreases self.envs.len() - i,
        {
            if bytes_eq(&self.envs[i].0, &key) {
                let ghost before = self.env_list();
                assert(before[i as int].0 == key_view);
                proof {
                    assert(is_first_key_at(before, key_view, i as int));
                    let k = choose|k: int| is_first_key_at(before, key_view, k);
                    if k < i {
                    } else if k > i {
                    }
                    assert(k == i);
                }
                self.envs.set(i, (key, value));
                assert(self.env_list() =~= before.update(i as int, (key_view, value_view)));
                return;
            }
            i = i + 1;
        }
        self.envs.push((key, value));
        assert(self.env_list() =~= old(self).env_list().push((key_view, value_view)));
    }
}

} // verus!
