//! The mapper registry: named mappers, each holding top-level statements
//! and reusable `<sql>` fragments. Loading is all-or-nothing: a mapper
//! with a duplicate statement id or fragment name is rejected whole.
use vstd::prelude::*;

use crate::node::Node;
use crate::node::Stmt;

verus! {

/// Why a registry operation failed.
#[derive(Debug, Clone, Copy, PartialEq, Eq, Structural)]
pub enum MapperError {
    DuplicateId,
    UnknownStatement,
    UnknownFragment,
}

/// A named collection of statements and fragments loaded as one unit.
/// Result maps are informational — `(id, table)` pairs stored for
/// higher mapping layers and ignored by the renderer.
#[derive(Debug)]
pub struct Mapper {
    pub statements: Vec<Stmt>,
    pub fragments: Vec<(String, Vec<Node>)>,
    pub result_maps: Vec<(String, String)>,
}

/// The mapper registry.
#[derive(Debug)]
pub struct Registry {
    pub mappers: Vec<(String, Mapper)>,
}

/// The statement ids of a statement list.
pub open spec fn stmt_ids(stmts: Seq<Stmt>) -> Seq<Seq<char>> {
    Seq::new(stmts.len(), |i: int| stmts[i].id@)
}

/// The fragment names of a fragment list.
pub open spec fn frag_ids(frags: Seq<(String, Vec<Node>)>) -> Seq<Seq<char>> {
    Seq::new(frags.len(), |i: int| frags[i].0@)
}

/// No name occurs twice.
pub open spec fn distinct_names(names: Seq<Seq<char>>) -> bool {
    forall|i: int, j: int| 0 <= i < j < names.len() ==> names[i] != names[j]
}

/// Finds a statement by id; with distinct ids at most one matches.
pub open spec fn stmt_find(stmts: Seq<Stmt>, id: Seq<char>) -> Option<Stmt>
    decreases stmts.len(),
{
    if stmts.len() == 0 {
        None
    } else if stmts.last().id@ == id {
        Some(stmts.last())
    } else {
        stmt_find(stmts.drop_last(), id)
    }
}

/// Finds a mapper by namespace; the most recently loaded wins.
pub open spec fn mapper_find(mappers: Seq<(String, Mapper)>, ns: Seq<char>) -> Option<Mapper>
    decreases mappers.len(),
{
    if mappers.len() == 0 {
        None
    } else if mappers.last().0@ == ns {
        Some(mappers.last().1)
    } else {
        mapper_find(mappers.drop_last(), ns)
    }
}

/// Decides whether any name occurs twice in a list.
#[verifier::loop_isolation(false)]
fn find_dup(names: &Vec<String>) -> (r: bool)
    ensures
        r == !distinct_names(Seq::new(names@.len(), |i: int| names@[i]@)),
{
    let ghost m = Seq::new(names@.len(), |i: int| names@[i]@);
    let mut i: usize = 0;
    while i < names.len()
        invariant
            i <= names@.len(),
            forall|p: int, q: int| 0 <= p < q < names@.len() && p < i ==> m[p] != m[q],
        decreases names@.len() - i,
    {
        let mut j: usize = i + 1;
        while j < names.len()
            invariant
                i < j <= names@.len(),
                forall|q: int| i < q < j ==> m[i as int] != m[q],
            decreases names@.len() - j,
        {
            if crate::text::str_eq(names[i].as_str(), names[j].as_str()) {
                proof {
                    assert(m[i as int] == m[j as int]);
                    assert(!distinct_names(m));
                }
                return true;
            }
            j = j + 1;
        }
        i = i + 1;
    }
    false
}

impl Registry {
    /// An empty registry.
    pub fn new() -> (r: Registry)
        ensures
            r.mappers@.len() == 0,
    {
        Registry { mappers: Vec::new() }
    }

    /// Loads a mapper under a namespace, all-or-nothing: when any two
    /// statements share an id, or any two fragments a name, nothing is
    /// retained and `DuplicateId` comes back.
    pub fn load(&mut self, namespace: String, mapper: Mapper) -> (r: Result<(), MapperError>)
        ensures
            match r {
                Ok(()) => distinct_names(stmt_ids(mapper.statements@)) && distinct_names(
                    frag_ids(mapper.fragments@),
                ) && final(self).mappers@ == old(self).mappers@.push((namespace, mapper)),
                Err(e) => e == MapperError::DuplicateId && (!distinct_names(
                    stmt_ids(mapper.statements@),
                ) || !distinct_names(frag_ids(mapper.fragments@))) && final(self).mappers@ == old(
                    self,
                ).mappers@,
            },
    {
        let mut sids: Vec<String> = Vec::new();
        let mut k: usize = 0;
        while k < mapper.statements.len()
            invariant
                k <= mapper.statements@.len(),
                sids@.len() == k,
                forall|p: int| 0 <= p < k ==> sids@[p]@ == mapper.statements@[p].id@,
            decreases mapper.statements@.len() - k,
        {
            sids.push(mapper.statements[k].id.clone());
            k = k + 1;
        }
        proof {
            assert(Seq::new(sids@.len(), |i: int| sids@[i]@) =~= stmt_ids(mapper.statements@));
        }
        if find_dup(&sids) {
            return Err(MapperError::DuplicateId);
        }
        let mut fids: Vec<String> = Vec::new();
        let mut k2: usize = 0;
        while k2 < mapper.fragments.len()
            invariant
                k2 <= mapper.fragments@.len(),
                fids@.len() == k2,
                forall|p: int| 0 <= p < k2 ==> fids@[p]@ == mapper.fragments@[p].0@,
            decreases mapper.fragments@.len() - k2,
        {
            fids.push(mapper.fragments[k2].0.clone());
            k2 = k2 + 1;
        }
        proof {
            assert(Seq::new(fids@.len(), |i: int| fids@[i]@) =~= frag_ids(mapper.fragments@));
        }
        if find_dup(&fids) {
            return Err(MapperError::DuplicateId);
        }
        self.mappers.push((namespace, mapper));
        Ok(())
    }

    /// The position of the mapper a namespace names, when one is loaded.
    #[verifier::loop_isolation(false)]
    pub fn mapper_at(&self, namespace: &str) -> (r: Option<usize>)
        ensures
            match r {
                Some(i) => i < self.mappers@.len() && mapper_find(self.mappers@, namespace@)
                    == Some(self.mappers@[i as int].1),
                None => mapper_find(self.mappers@, namespace@) is None,
            },
    {
        let mut i: usize = self.mappers.len();
        proof {
            assert(self.mappers@.take(self.mappers@.len() as int) =~= self.mappers@);
        }
        loop
            invariant
                i <= self.mappers@.len(),
                mapper_find(self.mappers@.take(i as int), namespace@) == mapper_find(
                    self.mappers@,
                    namespace@,
                ),
            decreases i,
        {
            if i == 0 {
                proof {
                    assert(self.mappers@.take(0) =~= Seq::<(String, Mapper)>::empty());
                }
                return None;
            }
            i = i - 1;
            proof {
                assert(self.mappers@.take(i as int + 1).drop_last() =~= self.mappers@.take(
                    i as int,
                ));
                assert(self.mappers@.take(i as int + 1).last() == self.mappers@[i as int]);
            }
            if crate::text::str_eq(self.mappers[i].0.as_str(), namespace) {
                return Some(i);
            }
        }
    }
}

/// The position of a statement in a mapper, when the id names one.
#[verifier::loop_isolation(false)]
pub fn stmt_at(mapper: &Mapper, id: &str) -> (r: Option<usize>)
    ensures
        match r {
            Some(i) => i < mapper.statements@.len() && stmt_find(mapper.statements@, id@) == Some(
                mapper.statements@[i as int],
            ),
            None => stmt_find(mapper.statements@, id@) is None,
        },
{
    let mut i: usize = mapper.statements.len();
    proof {
        assert(mapper.statements@.take(mapper.statements@.len() as int) =~= mapper.statements@);
    }
    loop
        invariant
            i <= mapper.statements@.len(),
            stmt_find(mapper.statements@.take(i as int), id@) == stmt_find(
                mapper.statements@,
                id@,
            ),
        decreases i,
    {
        if i == 0 {
            proof {
                assert(mapper.statements@.take(0) =~= Seq::<Stmt>::empty());
            }
            return None;
        }
        i = i - 1;
        proof {
            assert(mapper.statements@.take(i as int + 1).drop_last() =~= mapper.statements@.take(
                i as int,
            ));
            assert(mapper.statements@.take(i as int + 1).last() == mapper.statements@[i as int]);
        }
        if crate::text::str_eq(mapper.statements[i].id.as_str(), id) {
            return Some(i);
        }
    }
}

} // verus!
