//! The query catalog: named, parameterized read and write operations, and
//! the binding of a call's named arguments to an operation's parameters.

use crate::entries::{entries_map, entry_names, find_entry, lemma_map_size, names_unique, put_entry};
use crate::error::Error;
use vstd::prelude::*;

verus! {

/// A read operation: returns rows and leaves the store unchanged.
#[derive(Debug, Clone)]
pub struct ReadQuery {
    /// The statement, with `?` placeholders.
    pub sql_template: String,
    /// The parameter names, in bind order; their count is the arity.
    pub args: Vec<String>,
    /// The names of the result's columns, sent ahead of the rows.
    pub cols: Vec<String>,
}

/// A write operation: changes the store and returns no rows.
#[derive(Debug, Clone)]
pub struct WriteQuery {
    /// The statement, with `?` placeholders.
    pub sql_template: String,
    /// The parameter names, in bind order; their count is the arity.
    pub args: Vec<String>,
}

/// A catalog statement ready to run: its text and the values to bind to its
/// placeholders, in order.
#[derive(Debug, Clone)]
pub struct Query {
    pub sql_template: String,
    pub binds: Vec<String>,
}

/// The named arguments of one call; each name occurs at most once.
#[derive(Debug, Clone)]
pub struct Args {
    entries: Vec<(String, String)>,
}

/// The catalog: a read half and a write half, each mapping distinct names to
/// operations. A name may occur in both halves independently.
#[derive(Debug, Clone)]
pub struct Queries {
    read: Vec<(String, ReadQuery)>,
    write: Vec<(String, WriteQuery)>,
}

/// The values bound to `params` from `args`: each parameter's argument, or
/// the empty text where the call does not name it.
pub open spec fn bind_values(params: Seq<String>, args: Map<Seq<char>, Seq<char>>) -> Seq<
    Seq<char>,
> {
    Seq::new(
        params.len(),
        |i: int|
            if args.dom().contains(params[i]@) {
                args[params[i]@]
            } else {
                Seq::empty()
            },
    )
}

impl Args {
    pub closed spec fn wf(&self) -> bool {
        names_unique(entry_names(self.entries@))
    }

    /// The arguments as a map from name to value.
    pub closed spec fn map(&self) -> Map<Seq<char>, Seq<char>> {
        entries_map(self.entries@).map_values(|v: String| v@)
    }

    /// No arguments.
    pub fn new() -> (r: Args)
        ensures
            r.wf(),
            r.map() == Map::<Seq<char>, Seq<char>>::empty(),
    {
        let r = Args { entries: Vec::new() };
        assert(r.map() =~= Map::<Seq<char>, Seq<char>>::empty());
        r
    }

    /// Sets `name` to `value`, replacing an earlier value of that name.
    pub fn insert(&mut self, name: String, value: String)
        requires
            old(self).wf(),
        ensures
            final(self).wf(),
            final(self).map() == old(self).map().insert(name@, value@),
    {
        let ghost k = name@;
        let ghost v = value@;
        put_entry(&mut self.entries, name, value);
        assert(self.map() =~= old(self).map().insert(k, v));
    }

    /// How many names the call carries.
    pub fn len(&self) -> (r: usize)
        requires
            self.wf(),
        ensures
            r == self.map().dom().len(),
    {
        proof {
            lemma_map_size(self.entries@);
            assert(self.map().dom() =~= entries_map(self.entries@).dom());
        }
        self.entries.len()
    }

    /// The value given for `name`, if any.
    pub fn get(&self, name: &str) -> (r: Option<&String>)
        requires
            self.wf(),
        ensures
            r is None <==> !self.map().dom().contains(name@),
            r matches Some(v) ==> v@ == self.map()[name@],
    {
        match find_entry(&self.entries, name) {
            Some(i) => Some(&self.entries[i].1),
            None => None,
        }
    }
}

/// Binds `args` to `params` in order; a parameter the call does not name is
/// bound to the empty text.
fn bind(sql_template: &String, params: &Vec<String>, args: &Args) -> (r: Query)
    requires
        args.wf(),
    ensures
        r.sql_template@ == sql_template@,
        r.binds.deep_view() == bind_values(params@, args.map()),
{
    let mut binds: Vec<String> = Vec::new();
    let mut i: usize = 0;
    while i < params.len()
        invariant
            args.wf(),
            i <= params@.len(),
            binds.deep_view() == bind_values(params@, args.map()).take(i as int),
        decreases params@.len() - i,
    {
        let ghost old_binds = binds.deep_view();
        let ghost bv = bind_values(params@, args.map());
        let v = match args.get(params[i].as_str()) {
            Some(v) => v.clone(),
            None => String::new(),
        };
        assert(v@ == bv[i as int]);
        binds.push(v);
        assert(binds.deep_view() =~= old_binds.push(bv[i as int]));
        assert(binds.deep_view() =~= bind_values(params@, args.map()).take(i + 1));
        i = i + 1;
    }
    assert(bind_values(params@, args.map()).take(params@.len() as int) =~= bind_values(
        params@,
        args.map(),
    ));
    Query { sql_template: sql_template.clone(), binds }
}

impl ReadQuery {
    /// The result sent for this operation: the column names as a leading
    /// row, then the data rows.
    pub fn with_header(&self, rows: Vec<Vec<String>>) -> (r: Vec<Vec<String>>)
        ensures
            r.deep_view() == seq![self.cols.deep_view()] + rows.deep_view(),
    {
        let mut out: Vec<Vec<String>> = Vec::new();
        out.push(self.cols.clone());
        let mut rest = rows;
        out.append(&mut rest);
        assert(out.deep_view() =~= seq![self.cols.deep_view()] + rows.deep_view());
        out
    }
}

impl Queries {
    pub closed spec fn wf(&self) -> bool {
        &&& names_unique(entry_names(self.read@))
        &&& names_unique(entry_names(self.write@))
    }

    /// The read half as a map from name to operation.
    pub closed spec fn read_map(&self) -> Map<Seq<char>, ReadQuery> {
        entries_map(self.read@)
    }

    /// The write half as a map from name to operation.
    pub closed spec fn write_map(&self) -> Map<Seq<char>, WriteQuery> {
        entries_map(self.write@)
    }

    /// An empty catalog.
    pub fn new() -> (r: Queries)
        ensures
            r.wf(),
            r.read_map() == Map::<Seq<char>, ReadQuery>::empty(),
            r.write_map() == Map::<Seq<char>, WriteQuery>::empty(),
    {
        let r = Queries { read: Vec::new(), write: Vec::new() };
        assert(r.read_map() =~= Map::<Seq<char>, ReadQuery>::empty());
        assert(r.write_map() =~= Map::<Seq<char>, WriteQuery>::empty());
        r
    }

    /// Puts a read operation under `name`, replacing one of the same name.
    pub fn add_read(&mut self, name: String, query: ReadQuery)
        requires
            old(self).wf(),
        ensures
            final(self).wf(),
            final(self).read_map() == old(self).read_map().insert(name@, query),
            final(self).write_map() == old(self).write_map(),
    {
        put_entry(&mut self.read, name, query);
    }

    /// Puts a write operation under `name`, replacing one of the same name.
    pub fn add_write(&mut self, name: String, query: WriteQuery)
        requires
            old(self).wf(),
        ensures
            final(self).wf(),
            final(self).write_map() == old(self).write_map().insert(name@, query),
            final(self).read_map() == old(self).read_map(),
    {
        put_entry(&mut self.write, name, query);
    }

    /// The read operation named `name`, if any.
    pub fn get_read(&self, name: &str) -> (r: Option<&ReadQuery>)
        requires
            self.wf(),
        ensures
            r is None <==> !self.read_map().dom().contains(name@),
            r matches Some(q) ==> *q == self.read_map()[name@],
    {
        match find_entry(&self.read, name) {
            Some(i) => Some(&self.read[i].1),
            None => None,
        }
    }

    /// The write operation named `name`, if any.
    pub fn get_write(&self, name: &str) -> (r: Option<&WriteQuery>)
        requires
            self.wf(),
        ensures
            r is None <==> !self.write_map().dom().contains(name@),
            r matches Some(q) ==> *q == self.write_map()[name@],
    {
        match find_entry(&self.write, name) {
            Some(i) => Some(&self.write[i].1),
            None => None,
        }
    }

    /// Prepares the read operation `name` for a call with `args`: fails with
    /// `QueryDoesNotExist` where the read half has no such name, with
    /// `WrongNumberOfArgs` where the call's argument count differs from the
    /// operation's, and otherwise binds the arguments in parameter order.
    pub fn prepare_read(&self, name: &str, args: &Args) -> (r: Result<Query, Error>)
        requires
            self.wf(),
            args.wf(),
        ensures
            !self.read_map().dom().contains(name@) ==> r matches Err(Error::QueryDoesNotExist),
            self.read_map().dom().contains(name@) && args.map().dom().len()
                != self.read_map()[name@].args@.len() ==> r matches Err(
                Error::WrongNumberOfArgs,
            ),
            self.read_map().dom().contains(name@) && args.map().dom().len()
                == self.read_map()[name@].args@.len() ==> (r matches Ok(b) && b.sql_template@
                == self.read_map()[name@].sql_template@ && b.binds.deep_view() == bind_values(
                self.read_map()[name@].args@,
                args.map(),
            )),
    {
        match self.get_read(name) {
            None => Err(Error::QueryDoesNotExist),
            Some(q) => {
                if args.len() != q.args.len() {
                    Err(Error::WrongNumberOfArgs)
                } else {
                    Ok(bind(&q.sql_template, &q.args, args))
                }
            },
        }
    }

    /// Prepares the write operation `name` for a call with `args`, under the
    /// same rules as `prepare_read` against the write half.
    pub fn prepare_write(&self, name: &str, args: &Args) -> (r: Result<Query, Error>)
        requires
            self.wf(),
            args.wf(),
        ensures
            !self.write_map().dom().contains(name@) ==> r matches Err(Error::QueryDoesNotExist),
            self.write_map().dom().contains(name@) && args.map().dom().len()
                != self.write_map()[name@].args@.len() ==> r matches Err(
                Error::WrongNumberOfArgs,
            ),
            self.write_map().dom().contains(name@) && args.map().dom().len()
                == self.write_map()[name@].args@.len() ==> (r matches Ok(b) && b.sql_template@
                == self.write_map()[name@].sql_template@ && b.binds.deep_view() == bind_values(
                self.write_map()[name@].args@,
                args.map(),
            )),
    {
        match self.get_write(name) {
            None => Err(Error::QueryDoesNotExist),
            Some(q) => {
                if args.len() != q.args.len() {
                    Err(Error::WrongNumberOfArgs)
                } else {
                    Ok(bind(&q.sql_template, &q.args, args))
                }
            },
        }
    }
}

} // verus!
