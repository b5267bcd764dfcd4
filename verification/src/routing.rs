//! Route groups and the dispatch table.
//!
//! A route group is a named set of (method, path) bindings; each handler has
//! already captured the context value of its originating group, so the merged
//! dispatch table never needs to know a context's type and one group's
//! context can never reach another group's handlers. Merging is
//! concatenation; resolution scans from the most recent binding, so when two
//! groups bind the same (method, path) the group merged later wins.

use vstd::prelude::*;

use crate::host::HostIdentity;

verus! {

/// An HTTP request method, restricted to the methods the server serves.
#[derive(Clone, Copy, PartialEq, Eq, Structural, Debug)]
pub enum Method {
    Get,
    Post,
    Put,
}

/// A type-erased handler. Each variant carries the context value its route
/// group bound at registration time, so invoking it can never see another
/// group's context.
pub enum Handler {
    /// Responds with a fixed body captured at registration.
    Fixed(String),
    /// Responds with the rendered host-identity snapshot it captured.
    HostInfo(HostIdentity),
    /// Streams the request body back as the response body.
    Echo,
}

/// One (method, path) binding together with its handler.
pub struct Binding {
    pub method: Method,
    pub path: String,
    pub handler: Handler,
}

/// The routing key of a binding: its method paired with its path.
pub open spec fn binding_key(b: Binding) -> (Method, Seq<char>) {
    (b.method, b.path@)
}

/// Whether some binding in `bs` has the routing key `key`.
pub open spec fn has_binding(bs: Seq<Binding>, key: (Method, Seq<char>)) -> bool {
    exists|i: int| 0 <= i < bs.len() && binding_key(bs[i]) == key
}

/// The routing surface a sequence of bindings denotes: later bindings
/// overwrite earlier ones for the same key (last-registration-wins).
pub open spec fn table_map(bs: Seq<Binding>) -> Map<(Method, Seq<char>), Binding>
    decreases bs.len(),
{
    if bs.len() == 0 {
        Map::empty()
    } else {
        table_map(bs.drop_last()).insert(binding_key(bs.last()), bs.last())
    }
}

/// Appending one binding updates the denoted map at exactly its key.
pub proof fn lemma_table_map_push(bs: Seq<Binding>, b: Binding)
    ensures
        table_map(bs.push(b)) == table_map(bs).insert(binding_key(b), b),
{
    assert(bs.push(b).drop_last() =~= bs);
    assert(bs.push(b).last() == b);
}

/// A key is in the denoted map exactly when some binding carries it.
pub proof fn lemma_table_map_domain(bs: Seq<Binding>, key: (Method, Seq<char>))
    ensures
        table_map(bs).contains_key(key) <==> has_binding(bs, key),
    decreases bs.len(),
{
    if bs.len() == 0 {
    } else {
        lemma_table_map_domain(bs.drop_last(), key);
        if binding_key(bs.last()) == key {
            assert(has_binding(bs, key)) by {
                assert(binding_key(bs[bs.len() - 1]) == key);
            }
        } else {
            if has_binding(bs, key) {
                let i = choose|i: int| 0 <= i < bs.len() && binding_key(bs[i]) == key;
                assert(i < bs.len() - 1);
                assert(binding_key(bs.drop_last()[i]) == key);
            }
            if has_binding(bs.drop_last(), key) {
                let i = choose|i: int|
                    0 <= i < bs.drop_last().len() && binding_key(bs.drop_last()[i]) == key;
                assert(binding_key(bs[i]) == key);
            }
        }
    }
}

/// Registering a (method, path) pair that the same group already binds is a
/// construction-time error, surfaced immediately and never silently dropped.
pub struct DuplicateBindingError {
    /// The method of the offending pair.
    pub method: Method,
    /// The path of the offending pair.
    pub path: String,
}

/// A route group: a set of bindings with pairwise distinct (method, path)
/// keys. The group's context value lives inside each handler it binds.
pub struct RouteGroup {
    bindings: Vec<Binding>,
}

impl View for RouteGroup {
    type V = Seq<Binding>;

    closed spec fn view(&self) -> Seq<Binding> {
        self.bindings@
    }
}

impl RouteGroup {
    /// Within one group, no two bindings share a (method, path) pair.
    pub open spec fn wf(&self) -> bool {
        forall|i: int, j: int|
            0 <= i < j < self@.len() ==> binding_key(self@[i]) != binding_key(self@[j])
    }

    /// Constructs an empty group.
    pub fn new() -> (g: RouteGroup)
        ensures
            g@ == Seq::<Binding>::empty(),
            g.wf(),
    {
        RouteGroup { bindings: Vec::new() }
    }

    /// Registers a handler for (method, path). Fails, leaving the group
    /// unchanged, exactly when this group already binds that pair.
    pub fn bind(&mut self, method: Method, path: String, handler: Handler) -> (r: Result<
        (),
        DuplicateBindingError,
    >)
        requires
            old(self).wf(),
        ensures
            final(self).wf(),
            match r {
                Ok(_) => {
                    &&& !has_binding(old(self)@, (method, path@))
                    &&& final(self)@ == old(self)@.push(
                        (Binding { method, path, handler }),
                    )
                },
                Err(e) => {
                    &&& has_binding(old(self)@, (method, path@))
                    &&& final(self)@ == old(self)@
                    &&& e.method == method
                    &&& e.path@ == path@
                },
            },
    {
        match find_binding(&self.bindings, method, &path) {
            Some(_) => Err(DuplicateBindingError { method, path }),
            None => {
                let ghost before = self.bindings@;
                let ghost key = (method, path@);
                let b = Binding { method, path, handler };
                proof {
                    assert(binding_key(b) == key);
                }
                self.bindings.push(b);
                proof {
                    assert(self@ == before.push(b));
                    assert(binding_key(self@[self@.len() - 1]) == key);
                    assert forall|i: int, j: int|
                        0 <= i < j < self@.len() implies binding_key(self@[i]) != binding_key(
                        self@[j],
                    ) by {
                        if j == self@.len() - 1 {
                            assert(self@[i] == before[i]);
                            assert(binding_key(self@[j]) == key);
                            if binding_key(before[i]) == key {
                                assert(has_binding(before, key));
                            }
                        } else {
                            assert(self@[i] == before[i] && self@[j] == before[j]);
                            assert(old(self)@ == before);
                            assert(binding_key(old(self)@[i]) != binding_key(old(self)@[j]));
                        }
                    }
                }
                Ok(())
            },
        }
    }
}

/// The index of the last binding in `bs` carrying (method, path), if any.
fn find_binding(bs: &Vec<Binding>, method: Method, path: &String) -> (r: Option<usize>)
    ensures
        match r {
            Some(i) => {
                &&& i < bs@.len()
                &&& binding_key(bs@[i as int]) == (method, path@)
                &&& forall|j: int| i < j < bs@.len() ==> binding_key(bs@[j]) != (method, path@)
            },
            None => !has_binding(bs@, (method, path@)),
        },
{
    let mut i: usize = bs.len();
    while i > 0
        invariant
            i <= bs@.len(),
            forall|j: int| i <= j < bs@.len() ==> binding_key(bs@[j]) != (method, path@),
        decreases i,
    {
        i = i - 1;
        if bs[i].method == method && bs[i].path == *path {
            return Some(i);
        }
    }
    None
}

/// The merged routing surface: the groups' bindings in merge order.
/// Resolution takes the most recent binding for a key, so a group merged
/// later overwrites an earlier group's binding for the same (method, path) —
/// and only for that exact pair.
pub struct DispatchTable {
    bindings: Vec<Binding>,
}

impl View for DispatchTable {
    type V = Seq<Binding>;

    closed spec fn view(&self) -> Seq<Binding> {
        self.bindings@
    }
}

impl DispatchTable {
    /// Constructs an empty table.
    pub fn new() -> (t: DispatchTable)
        ensures
            t@ == Seq::<Binding>::empty(),
    {
        DispatchTable { bindings: Vec::new() }
    }

    /// Merges a group into the table after everything merged so far: its
    /// bindings are appended, handlers (and the context each captured)
    /// untouched.
    pub fn merge(&mut self, group: RouteGroup)
        ensures
            final(self)@ == old(self)@ + group@,
    {
        let RouteGroup { mut bindings } = group;
        proof {
            assert(old(self)@ + group@ =~= self@ + bindings@);
        }
        while bindings.len() > 0
            invariant
                old(self)@ + group@ == self@ + bindings@,
            decreases bindings@.len(),
        {
            let ghost prev_self = self@;
            let ghost prev_rest = bindings@;
            let b = bindings.remove(0);
            self.bindings.push(b);
            proof {
                assert(self@ + bindings@ =~= prev_self + prev_rest);
            }
        }
        proof {
            assert(self@ =~= old(self)@ + group@);
        }
    }

    /// Resolves a request's (method, path) to the binding the merged surface
    /// designates, or reports that none is registered.
    pub fn resolve(&self, method: Method, path: &String) -> (r: Option<&Binding>)
        ensures
            match r {
                Some(b) => {
                    &&& table_map(self@).contains_key((method, path@))
                    &&& *b == table_map(self@)[(method, path@)]
                },
                None => !table_map(self@).contains_key((method, path@)),
            },
    {
        match find_binding(&self.bindings, method, path) {
            Some(i) => {
                proof {
                    lemma_table_map_last_match(self@, (method, path@), i as int);
                }
                Some(&self.bindings[i])
            },
            None => {
                proof {
                    lemma_table_map_domain(self@, (method, path@));
                }
                None
            },
        }
    }
}

/// How concatenation denotes: a key bound by the later bindings resolves
/// there; one bound only by the earlier bindings resolves there.
pub proof fn lemma_table_map_concat(a: Seq<Binding>, b: Seq<Binding>, key: (Method, Seq<char>))
    ensures
        table_map(a + b).contains_key(key) <==> (table_map(a).contains_key(key) || table_map(
            b,
        ).contains_key(key)),
        table_map(b).contains_key(key) ==> table_map(a + b)[key] == table_map(b)[key],
        !table_map(b).contains_key(key) && table_map(a).contains_key(key) ==> table_map(a + b)[key]
            == table_map(a)[key],
    decreases b.len(),
{
    if b.len() == 0 {
        assert(a + b =~= a);
    } else {
        lemma_table_map_concat(a, b.drop_last(), key);
        assert((a + b).drop_last() =~= a + b.drop_last());
        assert((a + b).last() == b.last());
    }
}

/// Law: when two groups both bind the same (method, path), the group merged
/// later wins — the merged surface resolves that pair to the later group's
/// binding; merging in the other order resolves it to the other group's.
pub proof fn lemma_merge_last_wins(a: Seq<Binding>, b: Seq<Binding>, key: (Method, Seq<char>))
    requires
        has_binding(b, key),
    ensures
        table_map(a + b).contains_key(key),
        table_map(a + b)[key] == table_map(b)[key],
{
    lemma_table_map_domain(b, key);
    lemma_table_map_concat(a, b, key);
}

/// Law: for two groups that both bind the same (method, path), each merge
/// order resolves that pair to the group merged later — merging `a` then
/// `b` yields `b`'s binding, merging `b` then `a` yields `a`'s.
pub proof fn lemma_merge_collision_order(a: Seq<Binding>, b: Seq<Binding>, key: (Method, Seq<char>))
    requires
        has_binding(a, key),
        has_binding(b, key),
    ensures
        table_map(a + b)[key] == table_map(b)[key],
        table_map(b + a)[key] == table_map(a)[key],
{
    lemma_merge_last_wins(a, b, key);
    lemma_merge_last_wins(b, a, key);
}

/// Law: merging groups with disjoint bindings isolates them — a pair bound
/// by one group and not the other resolves, in the merged surface, to the
/// binding of its originating group, whose handler carries that group's own
/// context; the other group's context can never appear. This holds for
/// either merge order.
pub proof fn lemma_merge_isolates(a: Seq<Binding>, b: Seq<Binding>, key: (Method, Seq<char>))
    requires
        has_binding(a, key),
        !has_binding(b, key),
    ensures
        table_map(a + b).contains_key(key),
        table_map(a + b)[key] == table_map(a)[key],
        table_map(b + a).contains_key(key),
        table_map(b + a)[key] == table_map(a)[key],
{
    lemma_table_map_domain(a, key);
    lemma_table_map_domain(b, key);
    lemma_table_map_concat(a, b, key);
    lemma_table_map_concat(b, a, key);
}

/// If the binding at `i` carries `key` and no later binding does, the
/// denoted map resolves `key` to that binding.
pub proof fn lemma_table_map_last_match(bs: Seq<Binding>, key: (Method, Seq<char>), i: int)
    requires
        0 <= i < bs.len(),
        binding_key(bs[i]) == key,
        forall|j: int| i < j < bs.len() ==> binding_key(bs[j]) != key,
    ensures
        table_map(bs).contains_key(key),
        table_map(bs)[key] == bs[i],
    decreases bs.len(),
{
    if i == bs.len() - 1 {
    } else {
        assert(binding_key(bs.last()) != key);
        assert(bs.drop_last()[i] == bs[i]);
        lemma_table_map_last_match(bs.drop_last(), key, i);
    }
}

} // verus!
