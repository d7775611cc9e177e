//! The facade: one object holding the mapper registry, the transaction
//! manager and the connection driver's dialect. Its planning operations
//! do everything short of touching a connection: locate and render a
//! statement, rewrite placeholders, check bindability, and decide
//! whether the dispatch goes to a pooled connection or a transaction
//! and whether the prepared or the unprepared form is called.
use vstd::prelude::*;

use crate::dialect::BindError;
use crate::dialect::BoundQuery;
use crate::dialect::DriverType;
use crate::dialect::bind_arg;
use crate::dialect::is_scalar;
use crate::dialect::rewrite;
use crate::registry::Mapper;
use crate::registry::MapperError;
use crate::registry::Registry;
use crate::registry::mapper_find;
use crate::registry::stmt_find;
use crate::render::RenderError;
use crate::render::frags_view;
use crate::render::render_nodes_model;
use crate::render::vals_view;
use crate::tx::TxError;
use crate::tx::TxManager;
use crate::tx::TxState;
use crate::tx::finish_model;
use crate::tx::tx_find;
use crate::value::Env;
use crate::value::Val;
use crate::value::Value;

verus! {

/// Why a facade operation failed.
#[derive(Debug, Clone, Copy, PartialEq, Eq, Structural)]
pub enum RbError {
    Mapper(MapperError),
    Render(RenderError),
    Bind(BindError),
    Tx(TxError),
    NoDriver,
}

/// Where a dispatch goes: a fresh pooled connection, or the live
/// transaction the caller's id names.
#[derive(Debug, Clone, Copy, PartialEq, Eq, Structural)]
pub enum Route {
    Pooled,
    Tx,
}

/// Which driver call carries the query: the unprepared form for raw SQL
/// without arguments, the prepared form otherwise.
#[derive(Debug)]
pub enum QueryForm {
    Unprepared(String),
    Prepared(BoundQuery),
}

/// A dispatch-ready plan.
#[derive(Debug)]
pub struct Plan {
    pub route: Route,
    pub form: QueryForm,
}

/// The driver dialect a connection URL's scheme names.
pub open spec fn driver_of(u: Seq<char>) -> Option<DriverType> {
    if ("mysql://"@).is_prefix_of(u) {
        Some(DriverType::MySQL)
    } else if ("postgres://"@).is_prefix_of(u) {
        Some(DriverType::Postgres)
    } else if ("sqlite://"@).is_prefix_of(u) {
        Some(DriverType::SQLite)
    } else if ("mssql://"@).is_prefix_of(u) {
        Some(DriverType::MSSQL)
    } else {
        None
    }
}

/// Whether one character list begins with another.
#[verifier::loop_isolation(false)]
fn has_prefix(cs: &Vec<char>, p: &Vec<char>) -> (r: bool)
    ensures
        r == p@.is_prefix_of(cs@),
{
    if p.len() > cs.len() {
        return false;
    }
    let mut i: usize = 0;
    while i < p.len()
        invariant
            i <= p@.len(),
            p@.len() <= cs@.len(),
            forall|j: int| 0 <= j < i ==> cs@[j] == p@[j],
        decreases p@.len() - i,
    {
        if cs[i] != p[i] {
            proof {
                assert(!p@.is_prefix_of(cs@));
            }
            return false;
        }
        i = i + 1;
    }
    proof {
        assert(p@ =~= cs@.subrange(0, p@.len() as int));
    }
    true
}

/// Reads the driver dialect off a connection URL.
pub fn parse_driver(url: &str) -> (r: Option<DriverType>)
    ensures
        r == driver_of(url@),
{
    let cs = crate::text::chars_of(url);
    if has_prefix(&cs, &crate::text::chars_of("mysql://")) {
        Some(DriverType::MySQL)
    } else if has_prefix(&cs, &crate::text::chars_of("postgres://")) {
        Some(DriverType::Postgres)
    } else if has_prefix(&cs, &crate::text::chars_of("sqlite://")) {
        Some(DriverType::SQLite)
    } else if has_prefix(&cs, &crate::text::chars_of("mssql://")) {
        Some(DriverType::MSSQL)
    } else {
        None
    }
}

/// What rendering a registered statement yields: the statement looked
/// up by `(namespace, id)` and its children rendered against the
/// environment, with the mapper's own fragments resolving includes and
/// fuel enough for any acyclic include chain.
pub open spec fn render_statement_model(
    mappers: Seq<(String, Mapper)>,
    ns: Seq<char>,
    id: Seq<char>,
    env: Seq<(Seq<char>, Val)>,
) -> Result<(Seq<char>, Seq<Val>), RbError> {
    match mapper_find(mappers, ns) {
        None => Err(RbError::Mapper(MapperError::UnknownStatement)),
        Some(m) => match stmt_find(m.statements@, id) {
            None => Err(RbError::Mapper(MapperError::UnknownStatement)),
            Some(st) => match render_nodes_model(
                st.children@,
                env,
                frags_view(m.fragments@),
                m.fragments@.len() as nat,
            ) {
                Ok((s, a)) => Ok((s, a)),
                Err(e) => Err(RbError::Render(e)),
            },
        },
    }
}

/// The top-level object.
#[derive(Debug)]
pub struct Rbatis {
    pub registry: Registry,
    pub tx: TxManager,
    pub driver: Option<DriverType>,
}

impl Rbatis {
    /// A facade for the given connection URL: the driver dialect is
    /// read off the URL's scheme; registry and transaction map start
    /// empty. The pool itself lives with the caller.
    pub fn new(url: &str) -> (r: Rbatis)
        ensures
            r.driver == driver_of(url@),
            r.registry.mappers@.len() == 0,
            r.tx.entries@.len() == 0,
            r.tx.timed_out@.len() == 0,
    {
        Rbatis { registry: Registry::new(), tx: TxManager::new(), driver: parse_driver(url) }
    }

    /// Loads a mapper under a namespace; forwarded to the registry.
    pub fn load_mapper(&mut self, namespace: String, mapper: Mapper) -> (r: Result<
        (),
        MapperError,
    >)
        ensures
            match r {
                Ok(()) => final(self).registry.mappers@ == old(self).registry.mappers@.push(
                    (namespace, mapper),
                ),
                Err(e) => e == MapperError::DuplicateId && final(self).registry.mappers@ == old(
                    self,
                ).registry.mappers@,
            },
            final(self).tx == old(self).tx,
            final(self).driver == old(self).driver,
    {
        self.registry.load(namespace, mapper)
    }

    /// Renders a registered statement against an environment into
    /// neutral-placeholder SQL and its ordered argument list.
    pub fn render_statement(&self, namespace: &str, id: &str, env: &Env) -> (r: Result<
        (String, Vec<Value>),
        RbError,
    >)
        ensures
            match (r, render_statement_model(self.registry.mappers@, namespace@, id@, env@)) {
                (Ok((s, a)), Ok((ms, ma))) => s@ == ms && vals_view(a@) == ma,
                (Err(e1), Err(e2)) => e1 == e2,
                _ => false,
            },
    {
        match self.registry.mapper_at(namespace) {
            None => Err(RbError::Mapper(MapperError::UnknownStatement)),
            Some(mi) => {
                let mapper = &self.registry.mappers[mi].1;
                match crate::registry::stmt_at(mapper, id) {
                    None => Err(RbError::Mapper(MapperError::UnknownStatement)),
                    Some(si) => {
                        let stmt = &mapper.statements[si];
                        proof {
                            assert(stmt.children@.skip(0) =~= stmt.children@);
                        }
                        match crate::render::rn_nodes(
                            &stmt.children,
                            0,
                            env,
                            &mapper.fragments,
                            mapper.fragments.len(),
                        ) {
                            Ok((s, a)) => Ok((crate::text::string_of(&s), a)),
                            Err(e) => Err(RbError::Render(e)),
                        }
                    },
                }
            },
        }
    }

    /// Decides a dispatch: the empty transaction id routes to a fresh
    /// pooled connection, any other id to that transaction; an empty
    /// argument list takes the unprepared form with the SQL untouched,
    /// a non-empty one the prepared form with placeholders rewritten to
    /// the driver's dialect and every argument checked bindable.
    pub fn plan_prepare(&self, tx_id: &str, sql: &str, args: &Vec<Value>) -> (r: Result<
        Plan,
        RbError,
    >)
        ensures
            match r {
                Ok(p) => {
                    &&& (p.route == Route::Pooled <==> tx_id@.len() == 0)
                    &&& (p.route == Route::Tx <==> tx_id@.len() > 0)
                    &&& match p.form {
                        QueryForm::Unprepared(s) => args@.len() == 0 && s@ == sql@,
                        QueryForm::Prepared(q) => args@.len() > 0 && (exists|d: DriverType|
                            self.driver == Some(d) && q.sql@ == rewrite(sql@, d, 1)) && vals_view(
                            q.args@,
                        ) == vals_view(args@) && (forall|i: int|
                            0 <= i < args@.len() ==> is_scalar(args@[i]@)),
                    }
                },
                Err(RbError::NoDriver) => args@.len() > 0 && self.driver is None,
                Err(RbError::Bind(e)) => args@.len() > 0 && e == BindError::UnsupportedValue && !(
                forall|i: int| 0 <= i < args@.len() ==> is_scalar(args@[i]@)),
                Err(_) => false,
            },
    {
        let route = if tx_id.unicode_len() == 0 {
            Route::Pooled
        } else {
            Route::Tx
        };
        if args.len() == 0 {
            Ok(Plan { route, form: QueryForm::Unprepared(sql.to_owned()) })
        } else {
            match &self.driver {
                None => Err(RbError::NoDriver),
                Some(d) => match bind_arg(d, sql, args) {
                    Ok(q) => Ok(Plan { route, form: QueryForm::Prepared(q) }),
                    Err(e) => Err(RbError::Bind(e)),
                },
            }
        }
    }

    /// Renders a registered statement and plans its dispatch.
    pub fn plan_mapper(&self, tx_id: &str, namespace: &str, id: &str, env: &Env) -> (r: Result<
        Plan,
        RbError,
    >)
        ensures
            match (r, render_statement_model(self.registry.mappers@, namespace@, id@, env@)) {
                (Ok(p), Ok((ms, ma))) => {
                    &&& (p.route == Route::Pooled <==> tx_id@.len() == 0)
                    &&& match p.form {
                        QueryForm::Unprepared(s) => ma.len() == 0 && s@ == ms,
                        QueryForm::Prepared(q) => ma.len() > 0 && (exists|d: DriverType|
                            self.driver == Some(d) && q.sql@ == rewrite(ms, d, 1)) && vals_view(
                            q.args@,
                        ) == ma && (forall|i: int| 0 <= i < ma.len() ==> is_scalar(ma[i])),
                    }
                },
                (Err(e1), Err(e2)) => e1 == e2,
                (Err(RbError::NoDriver), Ok((ms, ma))) => ma.len() > 0 && self.driver is None,
                (Err(RbError::Bind(e)), Ok((ms, ma))) => ma.len() > 0 && e
                    == BindError::UnsupportedValue && !(forall|i: int|
                    0 <= i < ma.len() ==> is_scalar(ma[i])),
                _ => false,
            },
    {
        match self.render_statement(namespace, id, env) {
            Ok((sql, args)) => {
                let rp = self.plan_prepare(tx_id, sql.as_str(), &args);
                proof {
                    let ma = render_statement_model(
                        self.registry.mappers@,
                        namespace@,
                        id@,
                        env@,
                    )->Ok_0.1;
                    assert(ma == vals_view(args@));
                    assert(ma.len() == args@.len());
                    assert forall|i: int| 0 <= i < args@.len() implies ma[i] == args@[i]@ by {}
                    if (forall|i: int| 0 <= i < ma.len() ==> is_scalar(ma[i])) {
                        assert forall|i: int|
                            0 <= i < args@.len() implies is_scalar(args@[i]@) by {
                            assert(is_scalar(ma[i]));
                        }
                    }
                    if (forall|i: int| 0 <= i < args@.len() ==> is_scalar(args@[i]@)) {
                        assert forall|i: int| 0 <= i < ma.len() implies is_scalar(ma[i]) by {
                            assert(is_scalar(args@[i]@));
                        }
                    }
                }
                rp
            },
            Err(e) => Err(e),
        }
    }

    /// Begins a transaction under the caller's id. The empty id names
    /// "no transaction" and is refused.
    pub fn begin(&mut self, tx_id: &str) -> (r: Result<(), TxError>)
        ensures
            final(self).registry == old(self).registry,
            final(self).driver == old(self).driver,
            tx_id@.len() == 0 ==> r == Err::<(), TxError>(TxError::NotFound) && final(self).tx
                == old(self).tx,
            tx_id@.len() > 0 ==> match r {
                Ok(()) => tx_find(old(self).tx.entries@, tx_id@) is None && tx_find(
                    final(self).tx.entries@,
                    tx_id@,
                ) == Some(TxState::Active) && (forall|n: Seq<char>|
                    n != tx_id@ ==> tx_find(final(self).tx.entries@, n) == tx_find(
                        old(self).tx.entries@,
                        n,
                    )) && !crate::tx::has_name(final(self).tx.timed_out@, tx_id@),
                Err(e) => e == TxError::AlreadyBegun && tx_find(
                    old(self).tx.entries@,
                    tx_id@,
                ) is Some && final(self).tx.entries@ == old(self).tx.entries@
                    && final(self).tx.timed_out@ == old(self).tx.timed_out@,
            },
    {
        if tx_id.unicode_len() == 0 {
            return Err(TxError::NotFound);
        }
        let owned: String = tx_id.to_owned();
        let ghost e0 = self.tx.entries@;
        let ghost t0 = self.tx.timed_out@;
        let r = self.tx.begin(owned);
        proof {
            if r is Ok {
                crate::tx::lemma_push_find(
                    e0,
                    (final(self).tx.entries@.last().0, TxState::Active),
                    tx_id@,
                );
                assert forall|n: Seq<char>|
                    n != tx_id@ implies tx_find(final(self).tx.entries@, n) == tx_find(e0, n) by {
                    crate::tx::lemma_push_find(
                        e0,
                        (final(self).tx.entries@.last().0, TxState::Active),
                        n,
                    );
                }
                crate::tx::lemma_remove_name_has(t0, tx_id@, tx_id@);
            }
        }
        r
    }

    /// Commits the transaction the id names and drops its entry: no
    /// entry for the id remains. The driver-side commit is the
    /// caller's to run once this returns `Ok`.
    pub fn commit(&mut self, tx_id: &str) -> (r: Result<(), TxError>)
        ensures
            final(self).registry == old(self).registry,
            final(self).driver == old(self).driver,
            tx_id@.len() == 0 ==> r == Err::<(), TxError>(TxError::NotFound) && final(self).tx
                == old(self).tx,
            tx_id@.len() > 0 ==> (final(self).tx.entries@, final(self).tx.timed_out@, r)
                == finish_model(old(self).tx.entries@, old(self).tx.timed_out@, tx_id@),
            r is Ok ==> tx_find(final(self).tx.entries@, tx_id@) is None,
    {
        if tx_id.unicode_len() == 0 {
            return Err(TxError::NotFound);
        }
        self.tx.commit(tx_id)
    }

    /// Rolls the transaction the id names back and drops its entry,
    /// with `commit`'s error behaviour. The driver-side rollback is the
    /// caller's to run once this returns `Ok`.
    pub fn rollback(&mut self, tx_id: &str) -> (r: Result<(), TxError>)
        ensures
            final(self).registry == old(self).registry,
            final(self).driver == old(self).driver,
            tx_id@.len() == 0 ==> r == Err::<(), TxError>(TxError::NotFound) && final(self).tx
                == old(self).tx,
            tx_id@.len() > 0 ==> (final(self).tx.entries@, final(self).tx.timed_out@, r)
                == finish_model(old(self).tx.entries@, old(self).tx.timed_out@, tx_id@),
            r is Ok ==> tx_find(final(self).tx.entries@, tx_id@) is None,
    {
        if tx_id.unicode_len() == 0 {
            return Err(TxError::NotFound);
        }
        self.tx.rollback(tx_id)
    }
}

} // verus!
