//! The corpus of instruments and the benchmark queries, as read from
//! tab-separated text.

use crate::counting::lemma_filter_map_len;
use crate::text::{
    count_of, lemma_split_on_len, lines_of, same_text, split_lines, split_on, split_once_on,
    split_once_text, split_text,
};
use vstd::prelude::*;

verus! {

/// One instrument of the corpus.
#[derive(Clone, Debug, PartialEq, Eq)]
pub struct Instrument {
    pub symbol: String,
    pub name: String,
    pub isin: String,
}

/// The texts that an [`Instrument`] holds.
pub struct InstrumentText {
    pub symbol: Seq<char>,
    pub name: Seq<char>,
    pub isin: Seq<char>,
}

impl DeepView for Instrument {
    type V = InstrumentText;

    open spec fn deep_view(&self) -> InstrumentText {
        InstrumentText { symbol: self.symbol@, name: self.name@, isin: self.isin@ }
    }
}

/// One benchmark query: the text to look for, the name of the field to look
/// in, and the category under which the query is reported.
#[derive(Clone, Debug, PartialEq, Eq)]
pub struct Query {
    pub text: String,
    pub field: String,
    pub category: String,
}

/// The texts that a [`Query`] holds.
pub struct QueryText {
    pub text: Seq<char>,
    pub field: Seq<char>,
    pub category: Seq<char>,
}

impl DeepView for Query {
    type V = QueryText;

    open spec fn deep_view(&self) -> QueryText {
        QueryText { text: self.text@, field: self.field@, category: self.category@ }
    }
}

/// The field of an instrument that a query is matched against.
#[derive(Clone, Copy, Debug, PartialEq, Eq, Structural)]
pub enum Field {
    Symbol,
    Isin,
    Name,
}

/// The field that a field name selects: `symbol` and `isin` select the field
/// of that name, and every other name selects the instrument's name.
pub open spec fn field_named(name: Seq<char>) -> Field {
    if name == "symbol"@ {
        Field::Symbol
    } else if name == "isin"@ {
        Field::Isin
    } else {
        Field::Name
    }
}

/// The text of an instrument's field.
pub open spec fn field_text(instrument: InstrumentText, field: Field) -> Seq<char> {
    match field {
        Field::Symbol => instrument.symbol,
        Field::Isin => instrument.isin,
        Field::Name => instrument.name,
    }
}

/// The text of each instrument's field, in the order of the corpus.
pub open spec fn candidate_texts(corpus: Seq<InstrumentText>, field: Field) -> Seq<Seq<char>> {
    corpus.map_values(|instrument: InstrumentText| field_text(instrument, field))
}

/// The instrument that a line of the corpus holds: its first three columns.
/// A line with fewer columns holds none.
pub open spec fn instrument_in(line: Seq<char>) -> Option<InstrumentText> {
    let columns = split_on(line, '\t');
    if columns.len() >= 3 {
        Some(InstrumentText { symbol: columns[0], name: columns[1], isin: columns[2] })
    } else {
        None
    }
}

/// The query that a line holds: its first three columns. A line with fewer
/// columns holds none.
pub open spec fn query_in(line: Seq<char>) -> Option<QueryText> {
    let columns = split_on(line, '\t');
    if columns.len() >= 3 {
        Some(QueryText { text: columns[0], field: columns[1], category: columns[2] })
    } else {
        None
    }
}

/// The query text and the field name that a line of the form text,
/// tabulator, field name holds. The text ends at the first tabulator, and
/// the field name is all that follows it. A line without a tabulator holds
/// none.
pub open spec fn line_query_in(line: Seq<char>) -> Option<(Seq<char>, Seq<char>)> {
    split_once_on(line, '\t')
}

/// The lines of a corpus below its header line.
pub open spec fn data_lines(content: Seq<char>) -> Seq<Seq<char>> {
    let lines = lines_of(content);
    if lines.len() == 0 {
        lines
    } else {
        lines.drop_first()
    }
}

/// The instruments of a corpus: what each line below the header holds, in
/// the order of the lines.
pub open spec fn instruments_in(content: Seq<char>) -> Seq<InstrumentText> {
    data_lines(content).filter_map(|line: Seq<char>| instrument_in(line))
}

/// The queries of a query file: what each of its lines holds, in the order
/// of the lines. There is no header line.
pub open spec fn queries_in(content: Seq<char>) -> Seq<QueryText> {
    lines_of(content).filter_map(|line: Seq<char>| query_in(line))
}

/// The number of lines below the header that hold no instrument.
pub open spec fn malformed_lines(content: Seq<char>) -> nat {
    data_lines(content).filter(|line: Seq<char>| instrument_in(line) is None).len()
}

/// A corpus holds as many instruments as its content has lines, less the
/// header line and less the lines below it that hold no instrument.
pub proof fn lemma_instrument_count(content: Seq<char>)
    ensures
        lines_of(content).len() == 0 ==> instruments_in(content).len() == 0,
        lines_of(content).len() > 0 ==> instruments_in(content).len() == lines_of(content).len() - 1
            - malformed_lines(content),
{
    lemma_filter_map_len(
        data_lines(content),
        |line: Seq<char>| instrument_in(line),
        |line: Seq<char>| instrument_in(line) is Some,
        |line: Seq<char>| instrument_in(line) is None,
    );
}

/// A line holds an instrument if and only if it has at least two
/// tabulators.
pub proof fn lemma_instrument_lines(line: Seq<char>)
    ensures
        instrument_in(line) is Some <==> count_of(line, '\t') >= 2,
{
    lemma_split_on_len(line, '\t');
}

impl Field {
    /// Reads a field name. No name is refused: an unknown one selects the
    /// instrument's name.
    pub fn named(name: &str) -> (field: Field)
        ensures
            field == field_named(name@),
    {
        if same_text(name, "symbol") {
            Field::Symbol
        } else if same_text(name, "isin") {
            Field::Isin
        } else {
            Field::Name
        }
    }
}

impl Instrument {
    /// The text of this instrument that a query on `field` is matched
    /// against.
    pub fn candidate(&self, field: Field) -> (text: &str)
        ensures
            text@ == field_text(self.deep_view(), field),
    {
        match field {
            Field::Symbol => self.symbol.as_str(),
            Field::Isin => self.isin.as_str(),
            Field::Name => self.name.as_str(),
        }
    }
}

/// Reads the instrument of one line, if the line has the three columns.
pub fn parse_instrument(line: &str) -> (instrument: Option<Instrument>)
    ensures
        instrument.deep_view() == instrument_in(line@),
{
    let columns = split_text(line, '\t');
    if columns.len() >= 3 {
        Some(
            Instrument {
                symbol: columns[0].clone(),
                name: columns[1].clone(),
                isin: columns[2].clone(),
            },
        )
    } else {
        None
    }
}

/// Reads the query of one line, if the line has the three columns.
pub fn parse_query(line: &str) -> (query: Option<Query>)
    ensures
        query.deep_view() == query_in(line@),
{
    let columns = split_text(line, '\t');
    if columns.len() >= 3 {
        Some(
            Query {
                text: columns[0].clone(),
                field: columns[1].clone(),
                category: columns[2].clone(),
            },
        )
    } else {
        None
    }
}

/// Reads the query text and the field name of one line, if the line has a
/// tabulator.
pub fn parse_line_query(line: &str) -> (query: Option<(String, String)>)
    ensures
        query.deep_view() == line_query_in(line@),
{
    split_once_text(line, '\t')
}

/// Reads a corpus from the content of its file. The first line is a header
/// and is passed over; so is every later line with fewer than three columns.
pub fn load_instruments(content: &str) -> (instruments: Vec<Instrument>)
    ensures
        instruments.deep_view() == instruments_in(content@),
        instruments@.len() + malformed_lines(content@) == data_lines(content@).len(),
{
    let lines = split_lines(content);
    let mut instruments: Vec<Instrument> = Vec::new();
    proof {
        lemma_instrument_count(content@);
    }
    if lines.len() == 0 {
        return instruments;
    }
    let ghost data = data_lines(content@);
    let ghost read = |line: Seq<char>| instrument_in(line);
    let mut i: usize = 1;
    while i < lines.len()
        invariant
            1 <= i <= lines.len(),
            lines.deep_view() == lines_of(content@),
            data == data_lines(content@),
            read == |line: Seq<char>| instrument_in(line),
            instruments.deep_view() == data.take(i - 1).filter_map(read),
        decreases lines.len() - i,
    {
        proof {
            data.lemma_filter_map_take_succ(read, i - 1);
        }
        if let Some(instrument) = parse_instrument(lines[i].as_str()) {
            instruments.push(instrument);
        }
        i += 1;
    }
    proof {
        assert(data.take(data.len() as int) == data);
    }
    instruments
}

/// Reads the benchmark queries from the content of their file. Every line
/// with fewer than three columns is passed over, the empty line among them.
pub fn load_queries(content: &str) -> (queries: Vec<Query>)
    ensures
        queries.deep_view() == queries_in(content@),
{
    let lines = split_lines(content);
    let mut queries: Vec<Query> = Vec::new();
    let ghost all = lines_of(content@);
    let ghost read = |line: Seq<char>| query_in(line);
    let mut i: usize = 0;
    while i < lines.len()
        invariant
            i <= lines.len(),
            lines.deep_view() == all,
            read == |line: Seq<char>| query_in(line),
            queries.deep_view() == all.take(i as int).filter_map(read),
        decreases lines.len() - i,
    {
        proof {
            all.lemma_filter_map_take_succ(read, i as int);
        }
        let line = lines[i].as_str();
        if !line.is_empty() {
            if let Some(query) = parse_query(line) {
                queries.push(query);
            }
        }
        i += 1;
    }
    proof {
        assert(all.take(all.len() as int) == all);
    }
    queries
}

} // verus!
