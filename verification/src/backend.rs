//! The time-series store interface.
//!
//! The store itself lives outside the verified core; the simulation only
//! relies on the query contract below.  An implementation's contents are
//! modelled as a map from (symbol, date) to the stored daily record, and
//! every query method is specified against that model.

use vstd::prelude::*;
use crate::date::Date;
use crate::schema::RawData;

verus! {

/// Failures surfaced by a store implementation, reduced to the failing
/// subsystem and its message.
#[derive(Clone, Debug)]
pub enum Error {
    Sled(String),
    Utf8(String),
    Bincode(String),
}

/// Query and bulk-write operations of the per-symbol daily record store.
///
/// `records` is the abstract contents an implementation serves: one record
/// per (symbol, date) key.  Implementations are supplied by the surrounding
/// program (or by tests) and are trusted to answer queries from that model;
/// everything proved about the simulation is relative to this contract.
pub trait BackendOp {
    /// The abstract contents; left unspecified unless an implementation
    /// states its own.
    open spec fn records(&self) -> Map<(Seq<char>, Date), RawData> {
        vstd::pervasive::arbitrary()
    }

    fn batch_insert(&self, records: &Vec<(String, RawData)>) -> Result<(), Error>;

    fn query(&self, stock_id: &str, date: Date) -> (r: Result<Option<RawData>, Error>)
        ensures
            r matches Ok(opt) ==> opt == if self.records().contains_key((stock_id@, date)) {
                Some(self.records()[(stock_id@, date)])
            } else {
                None::<RawData>
            },
    ;

    fn query_by_range(&self, stock_id: &str, start_date: Date, end_date: Date) -> (r: Result<
        Vec<RawData>,
        Error,
    >)
        ensures
            r matches Ok(v) ==> range_records_match(
                self.records(),
                stock_id@,
                start_date,
                end_date,
                v@,
            ),
    ;

    fn query_all(&self, stock_id: &str) -> (r: Result<Vec<RawData>, Error>)
        ensures
            r matches Ok(v) ==> all_records_match(self.records(), stock_id@, v@),
    ;

    fn batch_delete(&self, records: &Vec<(String, Date)>) -> Result<(), Error>;
}

/// `rs` is exactly the store's records for `stock_id` dated within
/// `[start_date, end_date]`, in ascending date order: every element is the
/// stored record for its date and lies in the range, the dates are
/// strictly ascending, and every stored date in the range appears.
pub open spec fn range_records_match(
    model: Map<(Seq<char>, Date), RawData>,
    stock_id: Seq<char>,
    start_date: Date,
    end_date: Date,
    rs: Seq<RawData>,
) -> bool {
    &&& forall|k: int|
        0 <= k < rs.len() ==> {
            &&& model.contains_key((stock_id, (#[trigger] rs[k]).date))
            &&& rs[k] == model[(stock_id, rs[k].date)]
            &&& start_date.spec_le(rs[k].date)
            &&& rs[k].date.spec_le(end_date)
        }
    &&& forall|k: int, l: int|
        0 <= k < l < rs.len() ==> (#[trigger] rs[k]).date.spec_lt((#[trigger] rs[l]).date)
    &&& forall|d: Date|
        start_date.spec_le(d) && d.spec_le(end_date) && #[trigger] model.contains_key(
            (stock_id, d),
        ) ==> exists|k: int| 0 <= k < rs.len() && (#[trigger] rs[k]).date == d
}

/// `rs` is exactly the store's records for `stock_id`, in ascending date
/// order.
pub open spec fn all_records_match(
    model: Map<(Seq<char>, Date), RawData>,
    stock_id: Seq<char>,
    rs: Seq<RawData>,
) -> bool {
    &&& forall|k: int|
        0 <= k < rs.len() ==> {
            &&& model.contains_key((stock_id, (#[trigger] rs[k]).date))
            &&& rs[k] == model[(stock_id, rs[k].date)]
        }
    &&& forall|k: int, l: int|
        0 <= k < l < rs.len() ==> (#[trigger] rs[k]).date.spec_lt((#[trigger] rs[l]).date)
    &&& forall|d: Date|
        #[trigger] model.contains_key((stock_id, d)) ==> exists|k: int|
            0 <= k < rs.len() && (#[trigger] rs[k]).date == d
}

proof fn lemma_match_pointwise(
    model: Map<(Seq<char>, Date), RawData>,
    stock_id: Seq<char>,
    start_date: Date,
    end_date: Date,
    rs1: Seq<RawData>,
    rs2: Seq<RawData>,
    n: int,
)
    requires
        range_records_match(model, stock_id, start_date, end_date, rs1),
        range_records_match(model, stock_id, start_date, end_date, rs2),
        0 <= n < rs1.len(),
    ensures
        n < rs2.len(),
        rs1[n].date == rs2[n].date,
    decreases n,
{
    assert(model.contains_key((stock_id, rs1[n].date)));
    let k = choose|k: int| 0 <= k < rs2.len() && (#[trigger] rs2[k]).date == rs1[n].date;
    if k < n {
        lemma_match_pointwise(model, stock_id, start_date, end_date, rs1, rs2, k);
        assert(rs2[k].date == rs1[k].date);
        assert(rs1[k].date.spec_lt(rs1[n].date));
    } else if k > n {
        assert(rs2[n].date.spec_lt(rs2[k].date));
        assert(model.contains_key((stock_id, rs2[n].date)));
        let j = choose|j: int| 0 <= j < rs1.len() && (#[trigger] rs1[j]).date == rs2[n].date;
        if j < n {
            lemma_match_pointwise(model, stock_id, start_date, end_date, rs2, rs1, j);
            assert(rs1[j].date == rs2[j].date);
            assert(rs2[j].date.spec_lt(rs2[n].date));
        } else if j > n {
            assert(rs1[n].date.spec_lt(rs1[j].date));
        }
    }
}

/// Two record sequences that both match the store over the same symbol and
/// range are the same sequence: the store pins the window.
pub proof fn lemma_range_records_unique(
    model: Map<(Seq<char>, Date), RawData>,
    stock_id: Seq<char>,
    start_date: Date,
    end_date: Date,
    rs1: Seq<RawData>,
    rs2: Seq<RawData>,
)
    requires
        range_records_match(model, stock_id, start_date, end_date, rs1),
        range_records_match(model, stock_id, start_date, end_date, rs2),
    ensures
        rs1 == rs2,
{
    assert forall|n: int| 0 <= n < rs1.len() implies n < rs2.len() && (#[trigger] rs1[n]).date
        == rs2[n].date by {
        lemma_match_pointwise(model, stock_id, start_date, end_date, rs1, rs2, n);
    }
    assert forall|n: int| 0 <= n < rs2.len() implies n < rs1.len() && (#[trigger] rs2[n]).date
        == rs1[n].date by {
        lemma_match_pointwise(model, stock_id, start_date, end_date, rs2, rs1, n);
    }
    if rs1.len() > 0 {
        assert(rs1[rs1.len() - 1].date == rs2[rs1.len() - 1].date);
    }
    if rs2.len() > 0 {
        assert(rs2[rs2.len() - 1].date == rs1[rs2.len() - 1].date);
    }
    assert(rs1.len() == rs2.len());
    assert forall|n: int| 0 <= n < rs1.len() implies #[trigger] rs1[n] == rs2[n] by {
        assert(rs1[n] == model[(stock_id, rs1[n].date)]);
        assert(rs2[n] == model[(stock_id, rs2[n].date)]);
    }
    assert(rs1 =~= rs2);
}

/// The store key for one (symbol, date): the symbol, a separator, and the
/// ISO date, so that the keys of one symbol sort by date.
pub open spec fn spec_key(stock_id: Seq<char>, date: Date) -> Seq<char> {
    stock_id + seq!['_'] + date.spec_iso()
}

/// Builds the store key of a (symbol, date), exactly as `spec_key` states
/// it.
pub fn make_key(stock_id: &str, date: &Date) -> (r: String)
    requires
        date.valid(),
    ensures
        r@ == spec_key(stock_id@, *date),
{
    let mut k = stock_id.to_owned();
    k.append("_");
    let iso = date.to_iso_string();
    k.append(iso.as_str());
    proof {
        reveal_strlit("_");
        assert(k@ =~= spec_key(stock_id@, *date));
    }
    k
}

/// Keys of one symbol sort chronologically: a byte-ordered store serves
/// its per-symbol range queries in date order.
pub proof fn lemma_key_preserves_order(stock_id: Seq<char>, d1: Date, d2: Date)
    requires
        d1.valid(),
        d2.valid(),
        d1.spec_lt(d2),
    ensures
        crate::date::lex_lt(spec_key(stock_id, d1), spec_key(stock_id, d2)),
{
    crate::date::lemma_iso_preserves_order(d1, d2);
    assert(spec_key(stock_id, d1) =~= (stock_id + seq!['_']) + d1.spec_iso());
    assert(spec_key(stock_id, d2) =~= (stock_id + seq!['_']) + d2.spec_iso());
    crate::date::lemma_lex_common_prefix(stock_id + seq!['_'], d1.spec_iso(), d2.spec_iso());
}

/// The exclusive upper bound for an inclusive range query ending at
/// `date`: the key of the following day, which widens the half-open key
/// range to include `date` itself.  `None` only past the supported
/// calendar.
pub fn make_range_end_key(stock_id: &str, date: &Date) -> (r: Option<String>)
    requires
        date.valid(),
    ensures
        r is Some <==> !date.is_max(),
        r matches Some(s) ==> s@ == spec_key(stock_id@, date.spec_next()),
{
    match date.next_day() {
        Some(d) => Some(make_key(stock_id, &d)),
        None => None,
    }
}

} // verus!
