//! The persistence sink: one fetched record becomes exactly one appended
//! line of text.
//!
//! The sink here is the pure content model of the output destination — the
//! characters appended, in order. Binding that content to an actual file
//! handle is the caller's concern; a failure of that handle is this module's
//! `Io` error, logged and dropped by the scan loop just as a serialization
//! failure is.

use vstd::prelude::*;
use crate::codec::{encode_record, serializable, spec_decode, spec_obj, wf_text};
use crate::codec::{lemma_encode_decode_roundtrip, lemma_obj_printable};
use crate::record::{Record, RecordView};

verus! {

/// Why one record could not be persisted. Neither case is fatal to a scan:
/// the record is logged and dropped.
#[derive(PartialEq, Eq, Structural, Clone, Copy, Debug)]
pub enum PersistError {
    /// The record cannot be rendered as a JSON line.
    Serialization,
    /// The output destination refused the append.
    Io,
}

/// The full line persisted for a record: its object text and the line
/// break that ends it.
pub open spec fn spec_line(v: RecordView) -> Seq<char> {
    spec_obj(v).push('\n')
}

/// Render the one line that persisting this record appends.
/// `Err(Serialization)` exactly when the record is not serializable.
pub fn render_line(r: &Record) -> (res: Result<Vec<char>, PersistError>)
    ensures
        res is Ok <==> serializable(r@),
        match res {
            Result::Ok(l) => l@ == spec_line(r@),
            Result::Err(e) => e == PersistError::Serialization,
        },
{
    match encode_record(r) {
        Option::None => Result::Err(PersistError::Serialization),
        Option::Some(mut l) => {
            l.push('\n');
            Result::Ok(l)
        },
    }
}

/// Append one record to the output content: exactly one line on success,
/// nothing at all on a serialization failure.
pub fn persist(out: &mut Vec<char>, r: &Record) -> (res: Result<(), PersistError>)
    ensures
        res is Ok <==> serializable(r@),
        serializable(r@) ==> final(out)@ == old(out)@ + spec_line(r@),
        !serializable(r@) ==> final(out)@ == old(out)@ && res == Result::<(),
            PersistError,
        >::Err(PersistError::Serialization),
{
    match render_line(r) {
        Result::Err(e) => Result::Err(e),
        Result::Ok(line) => {
            let n = line.len();
            let mut i: usize = 0;
            while i < n
                invariant
                    i <= n,
                    n == line@.len(),
                    out@ == old(out)@ + line@.take(i as int),
                decreases n - i,
            {
                let c = line[i];
                out.push(c);
                proof {
                    assert(out@ =~= old(out)@ + line@.take(i + 1));
                }
                i = i + 1;
            }
            proof {
                assert(line@.take(n as int) =~= line@);
            }
            Result::Ok(())
        },
    }
}

/// How many finished lines a stretch of output holds.
pub open spec fn newline_count(s: Seq<char>) -> int
    decreases s.len(),
{
    if s.len() == 0 {
        0
    } else {
        newline_count(s.drop_last()) + if s.last() == '\n' {
            1int
        } else {
            0int
        }
    }
}

proof fn lemma_newline_count_concat(a: Seq<char>, b: Seq<char>)
    ensures
        newline_count(a + b) == newline_count(a) + newline_count(b),
    decreases b.len(),
{
    if b.len() == 0 {
        assert(a + b =~= a);
    } else {
        assert((a + b).drop_last() =~= a + b.drop_last());
        assert((a + b).last() == b.last());
        lemma_newline_count_concat(a, b.drop_last());
    }
}

proof fn lemma_printable_has_no_newline(s: Seq<char>)
    requires
        wf_text(s),
    ensures
        newline_count(s) == 0,
    decreases s.len(),
{
    if s.len() > 0 {
        assert(wf_text(s.drop_last()));
        lemma_printable_has_no_newline(s.drop_last());
        assert((s.last() as u32) >= 32);
    }
}

/// Whatever either scan has already written, persisting one more record
/// grows the shared output by exactly one finished line: appends are whole
/// lines, so no interleaving of the two scans can truncate or merge one.
pub proof fn lemma_persist_appends_one_line(out: Seq<char>, v: RecordView)
    requires
        serializable(v),
    ensures
        newline_count(out + spec_line(v)) == newline_count(out) + 1,
        (out + spec_line(v)).last() == '\n',
{
    lemma_obj_printable(v);
    lemma_printable_has_no_newline(spec_obj(v));
    assert(spec_line(v).drop_last() =~= spec_obj(v));
    assert(newline_count(spec_line(v)) == 1);
    lemma_newline_count_concat(out, spec_line(v));
    assert((out + spec_line(v)).last() == spec_line(v).last());
}

/// Persisting a fetched record produces exactly one output line — the line
/// break that ends it is the only one in it — and the text before that
/// break decodes to exactly the record that was fetched.
pub proof fn lemma_one_line_round_trip(v: RecordView)
    requires
        serializable(v),
    ensures
        ({
            let line = spec_line(v);
            &&& line.len() >= 1
            &&& line.last() == '\n'
            &&& forall|i: int| 0 <= i < line.len() - 1 ==> line[i] != '\n'
            &&& spec_decode(line.take(line.len() - 1)) == Option::Some(v)
        }),
{
    let line = spec_line(v);
    lemma_obj_printable(v);
    assert forall|i: int| 0 <= i < line.len() - 1 implies line[i] != '\n' by {
        assert(line[i] == spec_obj(v)[i]);
        assert((spec_obj(v)[i] as u32) >= 32);
        assert(('\n' as u32) < 32);
    }
    assert(line.take(line.len() - 1) =~= spec_obj(v));
    lemma_encode_decode_roundtrip(v);
}

} // verus!
