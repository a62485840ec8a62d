use vstd::prelude::*;

use crate::store::VarStore;

verus! {

/// The record a header row and a data row make: each column name mapped to
/// the value in its column, for as many columns as both rows have; a name
/// that repeats takes its last column.
pub open spec fn record_of(headers: Seq<String>, row: Seq<String>, n: int) -> Map<Seq<char>, Seq<char>>
    decreases n,
{
    if n <= 0 {
        Map::empty()
    } else {
        record_of(headers, row, n - 1).insert(headers[n - 1]@, row[n - 1]@)
    }
}

/// The number of columns both rows have.
pub open spec fn common_len(headers: Seq<String>, row: Seq<String>) -> int {
    if headers.len() <= row.len() { headers.len() as int } else { row.len() as int }
}

/// The record for `row` under `headers`.
pub open spec fn record(headers: Seq<String>, row: Seq<String>) -> Map<Seq<char>, Seq<char>> {
    record_of(headers, row, common_len(headers, row))
}

/// Builds the record for `row` under `headers`.
pub fn zip_record(headers: &Vec<String>, row: &Vec<String>) -> (r: VarStore)
    ensures
        r.wf(),
        r@ == record(headers@, row@),
{
    let n = if headers.len() <= row.len() { headers.len() } else { row.len() };
    let mut r = VarStore::new();
    let mut i: usize = 0;
    while i < n
        invariant
            n as int == common_len(headers@, row@),
            i <= n,
            r.wf(),
            r@ == record_of(headers@, row@, i as int),
        decreases n - i,
    {
        r.insert(headers[i].clone(), row[i].clone());
        i += 1;
    }
    r
}

/// A tabular data source: a header row and data rows, handed out one
/// record at a time, starting over after the last row.
pub struct DataProvider {
    headers: Vec<String>,
    rows: Vec<Vec<String>>,
    next: usize,
}

/// Where a provider over `n` rows stands after `k` records were taken from
/// its start: one step each time, back to the first row after the last.
pub open spec fn position_after(n: nat, k: nat) -> nat
    decreases k,
{
    if k == 0 {
        0
    } else {
        (position_after(n, (k - 1) as nat) + 1) % n
    }
}

impl DataProvider {
    pub closed spec fn wf(&self) -> bool {
        self.rows@.len() > 0 ==> self.next < self.rows@.len()
    }

    /// The header row.
    pub closed spec fn header_row(&self) -> Seq<String> {
        self.headers@
    }

    /// The data rows.
    pub closed spec fn data_rows(&self) -> Seq<Seq<String>> {
        self.rows@.map_values(|r: Vec<String>| r@)
    }

    /// The row the next record comes from.
    pub closed spec fn position(&self) -> nat {
        self.next as nat
    }

    /// A provider over a header row and data rows, at the first row.
    pub fn new(headers: Vec<String>, rows: Vec<Vec<String>>) -> (r: DataProvider)
        ensures
            r.wf(),
            r.header_row() == headers@,
            r.data_rows() == rows@.map_values(|x: Vec<String>| x@),
            r.position() == 0,
    {
        DataProvider { headers, rows, next: 0 }
    }

    /// A provider from a table whose first row names the columns; `None`
    /// for a table without even a header row.
    pub fn from_table(table: Vec<Vec<String>>) -> (r: Option<DataProvider>)
        ensures
            r is None <==> table@.len() == 0,
            r matches Some(p) ==> p.wf() && p.position() == 0 && p.header_row() == table@[0]@
                && p.data_rows() == table@.subrange(1, table@.len() as int).map_values(|x: Vec<String>| x@),
    {
        if table.len() == 0 {
            return None;
        }
        let mut table = table;
        let ghost t0 = table@;
        let headers = table.remove(0);
        assert(table@ =~= t0.subrange(1, t0.len() as int));
        Some(DataProvider::new(headers, table))
    }

    /// The number of data rows.
    pub fn row_count(&self) -> (n: usize)
        ensures
            n as nat == self.data_rows().len(),
    {
        self.rows.len()
    }

    /// The next record, as column name to value; the provider then moves to
    /// the following row, or back to the first after the last. Without data
    /// rows the record is empty.
    pub fn get_data(&mut self) -> (r: VarStore)
        requires
            old(self).wf(),
        ensures
            final(self).wf(),
            r.wf(),
            final(self).header_row() == old(self).header_row(),
            final(self).data_rows() == old(self).data_rows(),
            old(self).data_rows().len() == 0 ==> r@ == Map::<Seq<char>, Seq<char>>::empty() && final(self).position() == old(self).position(),
            old(self).data_rows().len() > 0 ==> {
                &&& r@ == record(old(self).header_row(), old(self).data_rows()[old(self).position() as int])
                &&& final(self).position() == (old(self).position() + 1) % old(self).data_rows().len()
            },
    {
        if self.rows.len() == 0 {
            let r = VarStore::new();
            return r;
        }
        let r = zip_record(&self.headers, &self.rows[self.next]);
        let ghost n = self.rows@.len();
        let ghost p = self.next as nat;
        assert(self.data_rows()[p as int] == self.rows@[p as int]@);
        if self.next + 1 == self.rows.len() {
            self.next = 0;
            proof {
                vstd::arithmetic::div_mod::lemma_mod_self_0(n as int);
            }
        } else {
            self.next = self.next + 1;
            proof {
                vstd::arithmetic::div_mod::lemma_small_mod(p + 1, n as nat);
            }
        }
        r
    }
}

/// Taking records from the start of a provider over `n > 0` rows, the
/// `k`-th record (counting from zero) comes from row `k mod n`, however
/// many times the rows have been gone through.
pub proof fn lemma_wrap_around(n: nat, k: nat)
    requires
        n > 0,
    ensures
        position_after(n, k) == k % n,
    decreases k,
{
    if k > 0 {
        lemma_wrap_around(n, (k - 1) as nat);
        let p = (k - 1) as nat;
        step_mod(p as int, n as int);
        assert(position_after(n, k) == (position_after(n, p) + 1) % n);
        assert(p + 1 == k);
    } else {
        vstd::arithmetic::div_mod::lemma_small_mod(0, n);
    }
}

proof fn step_mod(p: int, n: int)
    requires
        p >= 0,
        n > 0,
    ensures
        ((p % n) + 1) % n == (p + 1) % n,
{
    if n == 1 {
        vstd::arithmetic::div_mod::lemma_mod_bound(p, n);
        vstd::arithmetic::div_mod::lemma_mod_bound(p + 1, n);
        vstd::arithmetic::div_mod::lemma_mod_bound(p % n + 1, n);
    } else {
        vstd::arithmetic::div_mod::lemma_add_mod_noop(p, 1, n);
        vstd::arithmetic::div_mod::lemma_small_mod(1, n as nat);
        vstd::arithmetic::div_mod::lemma_mod_bound(p, n);
        vstd::arithmetic::div_mod::lemma_small_mod((p % n) as nat, n as nat);
    }
}

/// Reads a table whose first row names the columns into one record per
/// data row.
pub fn get_vec_data_map(table: &Vec<Vec<String>>) -> (r: Vec<VarStore>)
    ensures
        table@.len() == 0 ==> r@.len() == 0,
        table@.len() > 0 ==> r@.len() == table@.len() - 1 && forall|i: int| 0 <= i < r@.len()
            ==> (#[trigger] r@[i]).wf() && r@[i]@ == record(table@[0]@, table@[i + 1]@),
{
    let mut out: Vec<VarStore> = Vec::new();
    if table.len() == 0 {
        return out;
    }
    let mut i: usize = 1;
    while i < table.len()
        invariant
            table@.len() > 0,
            1 <= i <= table@.len(),
            out@.len() == i - 1,
            forall|j: int| 0 <= j < out@.len() ==> (#[trigger] out@[j]).wf() && out@[j]@ == record(table@[0]@, table@[j + 1]@),
        decreases table@.len() - i,
    {
        out.push(zip_record(&table[0], &table[i]));
        i += 1;
    }
    out
}

} // verus!
