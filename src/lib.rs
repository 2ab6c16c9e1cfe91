use std::collections::HashMap;
use vstd::prelude::*;

pub mod errors;
pub mod round_trip;
pub mod utils;

use crate::errors::{DataNotFound, Error};
use crate::utils::{has_csv_extension, parse_records, path_validate, raw_csv_to_records, records_text, records_to_string};

verus! {

/// One row of a document: its field values in column order.
pub type Record = Vec<String>;

/// Whether a document has been written out since it was made.
///
/// Every new document is `Unsaved`; only a successful save makes it `Saved`,
/// and later edits do not turn it back.
#[derive(Clone, Copy, Debug, PartialEq, Eq, Structural)]
pub enum SaveState {
    Saved,
    Unsaved,
}

/// A delimited-text document held in memory: the path it belongs to, its
/// records, and whether it has been saved.
#[derive(Debug)]
pub struct CSV<'a> {
    pub path: &'a str,
    pub data: Vec<Record>,
    state: SaveState,
}

impl<'a> CSV<'a> {
    /// The document's records as sequences of field values.
    pub closed spec fn records(&self) -> Seq<Seq<Seq<char>>> {
        self.data.deep_view()
    }

    /// The path the document belongs to.
    pub closed spec fn path_view(&self) -> Seq<char> {
        self.path@
    }

    /// The document's save state.
    pub closed spec fn save_state(&self) -> SaveState {
        self.state
    }

    /// A document with no records, for a path that ends with `.csv`.
    pub fn new(path: &'a str) -> (r: Result<CSV<'a>, Error>)
        ensures
            match r {
                Ok(csv) => {
                    &&& has_csv_extension(path@)
                    &&& csv.path_view() == path@
                    &&& csv.records().len() == 0
                    &&& csv.save_state() == SaveState::Unsaved
                },
                Err(e) => !has_csv_extension(path@) && e is IncorrectFileType,
            },
    {
        path_validate(path)?;
        Ok(CSV { path, data: Vec::new(), state: SaveState::Unsaved })
    }

    /// A document that holds `data`, for a path that ends with `.csv`.
    pub fn new_with_data(path: &'a str, data: Vec<Record>) -> (r: Result<CSV<'a>, Error>)
        ensures
            match r {
                Ok(csv) => {
                    &&& has_csv_extension(path@)
                    &&& csv.path_view() == path@
                    &&& csv.records() == data.deep_view()
                    &&& csv.save_state() == SaveState::Unsaved
                },
                Err(e) => !has_csv_extension(path@) && e is IncorrectFileType,
            },
    {
        path_validate(path)?;
        Ok(CSV { path, data, state: SaveState::Unsaved })
    }

    /// A document for `path` whose records are parsed from `text`, the
    /// contents of the file there.
    ///
    /// The path is checked first; then text that is not shaped like
    /// delimited data is refused.
    pub fn new_from_text(path: &'a str, text: &str) -> (r: Result<CSV<'a>, Error>)
        ensures
            match r {
                Ok(csv) => {
                    &&& has_csv_extension(path@)
                    &&& utils::csv_shaped(text@)
                    &&& csv.path_view() == path@
                    &&& csv.records() == parse_records(text@)
                    &&& csv.save_state() == SaveState::Unsaved
                },
                Err(e) => if has_csv_extension(path@) {
                    !utils::csv_shaped(text@) && e is Parse
                } else {
                    e is IncorrectFileType
                },
            },
    {
        path_validate(path)?;
        let data = raw_csv_to_records(text)?;
        Ok(CSV { path, data, state: SaveState::Unsaved })
    }

    /// The document's save state.
    pub fn check_state(&self) -> (r: &SaveState)
        ensures
            *r == self.save_state(),
    {
        &self.state
    }

    /// The last record; an error when there is none or it has no field.
    pub fn get_last_record(&self) -> (r: Result<&Record, Error>)
        ensures
            match r {
                Ok(record) => {
                    &&& self.records().len() > 0
                    &&& self.records().last().len() > 0
                    &&& record.deep_view() == self.records().last()
                },
                Err(e) => (self.records().len() == 0 || self.records().last().len() == 0) && e is DataNotFound,
            },
    {
        let n = self.data.len();
        if n == 0 || self.data[n - 1].len() == 0 {
            return Err(Error::DataNotFound(DataNotFound::new()));
        }
        Ok(&self.data[n - 1])
    }

    /// The fields of the first record, keyed by column index; an error when
    /// there is no record or the first has no field.
    pub fn get_headers(&self) -> (r: Result<HashMap<usize, &String>, Error>)
        ensures
            match r {
                Ok(headers) => {
                    &&& self.records().len() > 0
                    &&& self.records()[0].len() > 0
                    &&& headers@.dom() == Set::new(|k: usize| k < self.records()[0].len())
                    &&& forall|k: usize| k < self.records()[0].len() ==> headers@[k]@ == self.records()[0][k as int]
                },
                Err(e) => (self.records().len() == 0 || self.records()[0].len() == 0) && e is DataNotFound,
            },
    {
        broadcast use vstd::std_specs::hash::group_hash_axioms;
        if self.data.len() == 0 || self.data[0].len() == 0 {
            return Err(Error::DataNotFound(DataNotFound::new()));
        }
        let first = &self.data[0];
        let mut map: HashMap<usize, &String> = HashMap::new();
        for i in 0..first.len()
            invariant
                first == self.data@[0],
                map@.dom() == Set::new(|k: usize| k < i),
                forall|k: usize| k < i ==> map@[k]@ == first@[k as int]@,
        {
            map.insert(i, &first[i]);
            assert(map@.dom() == Set::new(|k: usize| k < i + 1));
        }
        Ok(map)
    }

    /// The number of records, the header included.
    pub fn len(&self) -> (r: usize)
        ensures
            r == self.records().len(),
    {
        self.data.len()
    }

    /// Whether the document holds no record.
    pub fn is_empty(&self) -> (r: bool)
        ensures
            r == (self.records().len() == 0),
    {
        self.data.len() == 0
    }

    /// The number of fields of the first record; an error when there is no
    /// record.
    pub fn record_len(&self) -> (r: Result<usize, Error>)
        ensures
            match r {
                Ok(n) => self.records().len() > 0 && n == self.records()[0].len(),
                Err(e) => self.records().len() == 0 && e is DataNotFound,
            },
    {
        if self.data.len() == 0 {
            return Err(Error::DataNotFound(DataNotFound::new()));
        }
        Ok(self.data[0].len())
    }

    /// Appends one record.
    pub fn insert_one(&mut self, data: Record)
        ensures
            final(self).records() == old(self).records().push(data.deep_view()),
            final(self).path_view() == old(self).path_view(),
            final(self).save_state() == old(self).save_state(),
    {
        let ghost before = self.data.deep_view();
        self.data.push(data);
        assert(self.data.deep_view() == before.push(data.deep_view()));
    }

    /// Appends each of `data`'s records, in order.
    pub fn insert_multi(&mut self, data: Vec<Record>)
        ensures
            final(self).records() == old(self).records() + data.deep_view(),
            final(self).path_view() == old(self).path_view(),
            final(self).save_state() == old(self).save_state(),
    {
        let ghost start = self.data@;
        let ghost added = data@;
        for x in it: data
            invariant
                it.seq() == added,
                self.data@ == start + added.take(it.index()),
                self.path == old(self).path,
                self.state == old(self).state,
        {
            self.data.push(x);
            assert(added.take(it.index() + 1) == added.take(it.index()).push(x));
        }
        assert(added.take(added.len() as int) == added);
        assert(self.data.deep_view() == old(self).data.deep_view() + data.deep_view());
    }

    /// The text to write to the document's file: its records with commas
    /// between fields.
    pub fn contents(&self) -> (r: String)
        ensures
            r@ == records_text(self.records(), ','),
    {
        records_to_string(&self.data, ',')
    }

    /// Takes note of the outcome of writing `contents()` to the file: a
    /// successful write marks the document saved, a failed one is reported
    /// as a write error and changes nothing.
    pub fn complete_save(&mut self, written: bool) -> (r: Result<(), Error>)
        ensures
            final(self).path_view() == old(self).path_view(),
            final(self).records() == old(self).records(),
            written ==> r is Ok && final(self).save_state() == SaveState::Saved,
            !written ==> (r matches Err(e) && e is Write),
            !written ==> final(self).save_state() == old(self).save_state(),
    {
        if written {
            self.state = SaveState::Saved;
            Ok(())
        } else {
            Err(Error::Write)
        }
    }
}

} // verus!
