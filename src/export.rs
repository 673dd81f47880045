//! Result projection: the import file that the destination network reads,
//! with one row per account that is ready to follow.

use vstd::prelude::*;
use vstd::utf8::{decode_utf8, valid_utf8};
use crate::follower_status::{BridgedFollower, FollowerStatus};
use crate::utils::strings_view;

verus! {

#[verifier::external_type_specification]
#[verifier::external_body]
pub struct ExCsvError(csv::Error);

/// A CSV writer of the csv crate over an in-memory buffer.
#[verifier::external_body]
pub struct CsvBuffer {
    writer: csv::Writer<Vec<u8>>,
}

#[verifier::external_type_specification]
#[verifier::external_body]
pub struct ExFromUtf8Error(std::string::FromUtf8Error);

/// The records that a CSV writer holds: those written through it, in order,
/// each as the text of its fields.
pub uninterp spec fn csv_records(w: CsvBuffer) -> Seq<Seq<Seq<char>>>;

/// The writer was made over an empty buffer with the default configuration,
/// and no write to it has failed.
pub uninterp spec fn csv_intact(w: CsvBuffer) -> bool;

/// The bytes that a writer in the default configuration produces for records.
pub uninterp spec fn csv_document(records: Seq<Seq<Seq<char>>>) -> Seq<u8>;

/// A field that the default configuration writes as it is: it holds no
/// delimiter, quote or line end.
pub open spec fn csv_plain_field(field: Seq<char>) -> bool {
    !field.contains(',') && !field.contains('"') && !field.contains('\r') && !field.contains('\n')
}

/// The fields of a record joined by commas.
pub open spec fn csv_line(fields: Seq<Seq<char>>) -> Seq<char>
    decreases fields.len(),
{
    if fields.len() == 0 {
        seq![]
    } else if fields.len() == 1 {
        fields[0]
    } else {
        csv_line(fields.drop_last()) + seq![','] + fields.last()
    }
}

/// Records that the default configuration writes without any quoting: every
/// field is plain and no line is empty.
pub open spec fn csv_plain_records(records: Seq<Seq<Seq<char>>>) -> bool {
    forall|i: int|
        0 <= i < records.len() ==> csv_line(#[trigger] records[i]).len() > 0 && forall|j: int|
            0 <= j < records[i].len() ==> csv_plain_field(#[trigger] records[i][j])
}

/// The text of plain records: each line followed by a line end.
pub open spec fn csv_plain_text(records: Seq<Seq<Seq<char>>>) -> Seq<char>
    decreases records.len(),
{
    if records.len() == 0 {
        seq![]
    } else {
        csv_plain_text(records.drop_last()) + csv_line(records.last()) + seq!['\n']
    }
}

/// Relies on `csv::Writer::from_writer`: a writer in the default configuration
/// over an empty buffer, with nothing written yet.
#[verifier::external_body]
fn new_csv_buffer() -> (w: CsvBuffer)
    ensures
        csv_records(w) == Seq::<Seq<Seq<char>>>::empty(),
        csv_intact(w),
{
    CsvBuffer { writer: csv::Writer::from_writer(Vec::new()) }
}

/// Relies on `csv::Writer::write_record`: on success the record follows the
/// ones written before; the writer's configuration does not change. Over an
/// in-memory buffer the only failure is a record whose number of fields
/// differs from the first record's.
#[verifier::external_body]
fn csv_write_record(w: &mut CsvBuffer, record: &Vec<String>) -> (r: Result<(), csv::Error>)
    ensures
        r is Ok ==> csv_records(*final(w)) == csv_records(*old(w)).push(strings_view(record@)),
        r is Err ==> csv_records(*final(w)) == csv_records(*old(w)),
        csv_intact(*old(w)) && (csv_records(*old(w)).len() == 0 || record@.len() == csv_records(
            *old(w),
        )[0].len()) ==> r is Ok,
        csv_intact(*final(w)) == (csv_intact(*old(w)) && r is Ok),
{
    w.writer.write_record(record)
}

/// Relies on `csv::Writer::into_inner`: flushes the writer and hands back its
/// buffer, which then holds the text of the records written (`None` where the
/// flush failed; flushing into memory does not fail). The writer copies the
/// bytes of each field and adds only ASCII delimiters, quotes and line ends,
/// and quotes only fields that are not plain and lines that would be empty.
#[verifier::external_body]
fn csv_into_bytes(w: CsvBuffer) -> (r: Option<Vec<u8>>)
    ensures
        csv_intact(w) ==> r is Some,
        r is Some && csv_intact(w) ==> r->Some_0@ == csv_document(csv_records(w)) && valid_utf8(
            r->Some_0@,
        ),
        r is Some && csv_intact(w) && csv_plain_records(csv_records(w)) ==> decode_utf8(r->Some_0@)
            == csv_plain_text(csv_records(w)),
{
    w.writer.into_inner().ok()
}

/// Relies on `String::from_utf8`: succeeds exactly on valid UTF-8, and then
/// holds the decoded characters.
#[verifier::external_body]
fn utf8_to_string(bytes: Vec<u8>) -> (r: Result<String, std::string::FromUtf8Error>)
    ensures
        r is Ok <==> valid_utf8(bytes@),
        r is Ok ==> r->Ok_0@ == decode_utf8(bytes@),
{
    String::from_utf8(bytes)
}

impl CsvBuffer {
    /// An empty CSV buffer in the default configuration.
    pub fn new() -> (w: CsvBuffer)
        ensures
            csv_records(w) == Seq::<Seq<Seq<char>>>::empty(),
            csv_intact(w),
    {
        new_csv_buffer()
    }
}

/// `row` is the import row of an entry that is ready to follow.
pub open spec fn is_ready_row(followers: Seq<BridgedFollower>, bridge_domain: Seq<char>, row: Seq<Seq<char>>) -> bool {
    exists|j: int|
        0 <= j < followers.len() && (#[trigger] followers[j]).status == FollowerStatus::ReadyToFollow
            && row == import_row(followers[j].handle@, bridge_domain)
}

/// Every row is an import row for an entry that is ready to follow.
proof fn lemma_ready_rows_are_rows(followers: Seq<BridgedFollower>, bridge_domain: Seq<char>)
    ensures
        forall|k: int|
            0 <= k < ready_rows(followers, bridge_domain).len() ==> is_ready_row(
                followers,
                bridge_domain,
                #[trigger] ready_rows(followers, bridge_domain)[k],
            ) && ready_rows(followers, bridge_domain)[k].len() == 4,
    decreases followers.len(),
{
    if followers.len() > 0 {
        let earlier = followers.drop_last();
        let n = followers.len() - 1;
        lemma_ready_rows_are_rows(earlier, bridge_domain);
        let before = ready_rows(earlier, bridge_domain);
        let rows = ready_rows(followers, bridge_domain);
        assert forall|k: int| 0 <= k < rows.len() implies is_ready_row(
            followers,
            bridge_domain,
            #[trigger] rows[k],
        ) && rows[k].len() == 4 by {
            if k < before.len() {
                assert(rows[k] == before[k]);
                assert(is_ready_row(earlier, bridge_domain, before[k]));
                let j = choose|j: int|
                    0 <= j < earlier.len() && (#[trigger] earlier[j]).status
                        == FollowerStatus::ReadyToFollow && before[k] == import_row(
                        earlier[j].handle@,
                        bridge_domain,
                    );
                assert(followers[j] == earlier[j]);
            } else {
                assert(followers[n] == followers.last());
                assert(followers[n].status == FollowerStatus::ReadyToFollow);
                assert(rows[k] == import_row(followers[n].handle@, bridge_domain));
            }
        }
    }
}

proof fn lemma_plain_concat(a: Seq<char>, b: Seq<char>)
    requires
        csv_plain_field(a),
        csv_plain_field(b),
    ensures
        csv_plain_field(a + b),
{
    assert forall|c: char| (a + b).contains(c) implies a.contains(c) || b.contains(c) by {
        let k = choose|k: int| 0 <= k < (a + b).len() && (a + b)[k] == c;
        if k < a.len() {
            assert(a[k] == c);
        } else {
            assert(b[k - a.len()] == c);
        }
    }
}

proof fn lemma_line_not_empty(fields: Seq<Seq<char>>)
    requires
        fields.len() >= 2,
    ensures
        csv_line(fields).len() > 0,
{
}

/// Where the domain and the ready handles are plain, no field of the import
/// file needs quoting.
proof fn lemma_import_records_are_plain(statuses: Seq<BridgedFollower>, bridge_domain: Seq<char>)
    requires
        plain_export(statuses, bridge_domain),
    ensures
        csv_plain_records(import_records(statuses, bridge_domain)),
{
    reveal_strlit("Account address");
    reveal_strlit("Show boosts");
    reveal_strlit("Notify on new posts");
    reveal_strlit("Languages");
    reveal_strlit("true");
    reveal_strlit("false");
    lemma_ready_rows_are_rows(statuses, bridge_domain);
    let records = import_records(statuses, bridge_domain);
    let rows = ready_rows(statuses, bridge_domain);
    assert forall|i: int| 0 <= i < records.len() implies csv_line(#[trigger] records[i]).len() > 0
        && forall|j: int| 0 <= j < records[i].len() ==> csv_plain_field(#[trigger] records[i][j]) by {
        if i == 0 {
            assert(records[i] == import_header());
            lemma_line_not_empty(import_header());
            assert(csv_plain_field("Account address"@));
            assert(csv_plain_field("Show boosts"@));
            assert(csv_plain_field("Notify on new posts"@));
            assert(csv_plain_field("Languages"@));
        } else {
            assert(records[i] == rows[i - 1]);
            assert(is_ready_row(statuses, bridge_domain, rows[i - 1]));
            let j = choose|j: int|
                0 <= j < statuses.len() && (#[trigger] statuses[j]).status
                    == FollowerStatus::ReadyToFollow && rows[i - 1] == import_row(
                    statuses[j].handle@,
                    bridge_domain,
                );
            let handle = statuses[j].handle@;
            lemma_line_not_empty(import_row(handle, bridge_domain));
            assert(csv_plain_field(seq!['@']));
            lemma_plain_concat(seq!['@'], handle);
            lemma_plain_concat(seq!['@'] + handle, seq!['@']);
            lemma_plain_concat(seq!['@'] + handle + seq!['@'], bridge_domain);
            assert(csv_plain_field("true"@));
            assert(csv_plain_field("false"@));
            assert(csv_plain_field(Seq::<char>::empty()));
        }
    }
}

/// Why the import file could not be produced.
#[derive(Debug, Clone, Copy, PartialEq, Eq, Structural)]
pub enum ExportError {
    /// The CSV writer refused a record.
    Write,
    /// The CSV writer could not flush its buffer.
    Flush,
    /// The CSV text was not valid UTF-8.
    Encoding,
}

/// The header row of the import file.
pub open spec fn import_header() -> Seq<Seq<char>> {
    seq!["Account address"@, "Show boosts"@, "Notify on new posts"@, "Languages"@]
}

/// The row for one account to follow: its address with a leading `@`, boosts
/// shown, no notification, no language filter.
pub open spec fn import_row(handle: Seq<char>, bridge_domain: Seq<char>) -> Seq<Seq<char>> {
    seq![seq!['@'] + handle + seq!['@'] + bridge_domain, "true"@, "false"@, Seq::<char>::empty()]
}

/// One row per entry that is ready to follow, in order.
pub open spec fn ready_rows(followers: Seq<BridgedFollower>, bridge_domain: Seq<char>) -> Seq<Seq<Seq<char>>>
    decreases followers.len(),
{
    if followers.len() == 0 {
        seq![]
    } else {
        let earlier = ready_rows(followers.drop_last(), bridge_domain);
        if followers.last().status == FollowerStatus::ReadyToFollow {
            earlier.push(import_row(followers.last().handle@, bridge_domain))
        } else {
            earlier
        }
    }
}

/// The records of the import file: the header, then the rows.
pub open spec fn import_records(followers: Seq<BridgedFollower>, bridge_domain: Seq<char>) -> Seq<Seq<Seq<char>>> {
    seq![import_header()] + ready_rows(followers, bridge_domain)
}

/// The text of each row.
pub open spec fn rows_view(rows: Seq<Vec<String>>) -> Seq<Seq<Seq<char>>> {
    rows.map_values(|row: Vec<String>| strings_view(row@))
}

/// Builds the header row.
pub fn import_header_row() -> (r: Vec<String>)
    ensures
        strings_view(r@) == import_header(),
{
    let r = vec![
        String::from_str("Account address"),
        String::from_str("Show boosts"),
        String::from_str("Notify on new posts"),
        String::from_str("Languages"),
    ];
    assert(strings_view(r@) =~= import_header());
    r
}

/// Builds the row for one account to follow.
pub fn import_row_for(handle: &str, bridge_domain: &str) -> (r: Vec<String>)
    ensures
        strings_view(r@) == import_row(handle@, bridge_domain@),
{
    proof {
        reveal_strlit("@");
    }
    let mut address = String::from_str("@");
    address.append(handle);
    address.append("@");
    address.append(bridge_domain);
    assert(address@ =~= seq!['@'] + handle@ + seq!['@'] + bridge_domain@);
    let mut r: Vec<String> = Vec::new();
    r.push(address);
    r.push(String::from_str("true"));
    r.push(String::from_str("false"));
    r.push(String::new());
    assert(strings_view(r@) =~= import_row(handle@, bridge_domain@));
    r
}

/// The rows of the accounts that are ready to follow, in order.
pub fn import_rows(statuses: &Vec<BridgedFollower>, bridge_domain: &str) -> (r: Vec<Vec<String>>)
    ensures
        rows_view(r@) == ready_rows(statuses@, bridge_domain@),
{
    let mut rows: Vec<Vec<String>> = Vec::new();
    let mut i: usize = 0;
    while i < statuses.len()
        invariant
            i <= statuses.len(),
            rows_view(rows@) == ready_rows(statuses@.take(i as int), bridge_domain@),
        decreases statuses.len() - i,
    {
        assert(statuses@.take(i + 1).drop_last() =~= statuses@.take(i as int));
        assert(statuses@.take(i + 1).last() == statuses@[i as int]);
        if statuses[i].status == FollowerStatus::ReadyToFollow {
            let row = import_row_for(statuses[i].handle.as_str(), bridge_domain);
            let ghost earlier = rows@;
            rows.push(row);
            assert(rows_view(rows@) =~= rows_view(earlier).push(strings_view(row@)));
        }
        i += 1;
    }
    assert(statuses@.take(statuses.len() as int) =~= statuses@);
    rows
}

/// Writes the import file's records to a CSV writer: the header, then one row
/// per entry that is ready to follow.
pub fn write_statuses_to_import_csv(
    csv_writer: &mut CsvBuffer,
    statuses: &Vec<BridgedFollower>,
    bridge_domain: &str,
) -> (r: Result<(), ExportError>)
    ensures
        r is Ok ==> csv_records(*final(csv_writer)) == csv_records(*old(csv_writer)) + import_records(
            statuses@,
            bridge_domain@,
        ),
        csv_intact(*final(csv_writer)) == (csv_intact(*old(csv_writer)) && r is Ok),
        csv_intact(*old(csv_writer)) && (csv_records(*old(csv_writer)).len() == 0 || csv_records(
            *old(csv_writer),
        )[0].len() == 4) ==> r is Ok,
        r is Err ==> r == Err::<(), ExportError>(ExportError::Write) && exists|k: int|
            0 <= k < import_records(statuses@, bridge_domain@).len() && csv_records(
                *final(csv_writer),
            ) == csv_records(*old(csv_writer)) + import_records(statuses@, bridge_domain@).take(k),
{
    let ghost start = csv_records(*csv_writer);
    let ghost records = import_records(statuses@, bridge_domain@);
    let ghost fits = csv_intact(*csv_writer) && (start.len() == 0 || start[0].len() == 4);
    let header = import_header_row();
    assert(header@.len() == strings_view(header@).len());
    if csv_write_record(csv_writer, &header).is_err() {
        assert(start =~= start + records.take(0));
        assert(0 < records.len() && csv_records(*csv_writer) == start + records.take(0));
        return Err(ExportError::Write);
    }
    let rows = import_rows(statuses, bridge_domain);
    let ghost all = rows_view(rows@);
    proof {
        lemma_ready_rows_are_rows(statuses@, bridge_domain@);
        assert(records =~= seq![import_header()] + all);
    }
    let mut i: usize = 0;
    while i < rows.len()
        invariant
            i <= rows.len(),
            all == rows_view(rows@),
            records == seq![import_header()] + all,
            records == import_records(statuses@, bridge_domain@),
            start == csv_records(*old(csv_writer)),
            all == ready_rows(statuses@, bridge_domain@),
            forall|k: int| 0 <= k < all.len() ==> (#[trigger] all[k]).len() == 4,
            csv_intact(*csv_writer) == csv_intact(*old(csv_writer)),
            fits == (csv_intact(*old(csv_writer)) && (start.len() == 0 || start[0].len() == 4)),
            csv_records(*csv_writer) == start.push(import_header()) + all.take(i as int),
        decreases rows.len() - i,
    {
        proof {
            let cur = csv_records(*csv_writer);
            assert(cur[0] == if start.len() == 0 { import_header() } else { start[0] });
            assert(strings_view(rows@[i as int]@) == all[i as int]);
            assert(rows@[i as int]@.len() == strings_view(rows@[i as int]@).len());
            assert(all[i as int].len() == 4);
        }
        if csv_write_record(csv_writer, &rows[i]).is_err() {
            assert(start.push(import_header()) + all.take(i as int) =~= start + records.take(i + 1));
            assert(i + 1 < records.len() && csv_records(*csv_writer) == start + records.take(i + 1));
            return Err(ExportError::Write);
        }
        assert(all.take(i + 1) =~= all.take(i as int).push(strings_view(rows@[i as int]@)));
        i += 1;
    }
    assert(all.take(rows.len() as int) =~= all);
    assert(start.push(import_header()) + all =~= start + import_records(statuses@, bridge_domain@));
    Ok(())
}

/// No field of the import file needs quoting: the bridge domain and the
/// handles of the entries that are ready to follow hold no delimiter, quote
/// or line end.
pub open spec fn plain_export(statuses: Seq<BridgedFollower>, bridge_domain: Seq<char>) -> bool {
    csv_plain_field(bridge_domain) && forall|i: int|
        0 <= i < statuses.len() && (#[trigger] statuses[i]).status == FollowerStatus::ReadyToFollow
            ==> csv_plain_field(statuses[i].handle@)
}

/// The import file as text: the CSV encoding of the header and of one row per
/// entry that is ready to follow. It always succeeds; where no field needs
/// quoting, the text is each record's fields joined by commas, one line each.
pub fn statuses_to_import_csv(statuses: &Vec<BridgedFollower>, bridge_domain: &str) -> (r: Result<String, ExportError>)
    ensures
        r is Ok,
        valid_utf8(csv_document(import_records(statuses@, bridge_domain@))),
        r->Ok_0@ == decode_utf8(csv_document(import_records(statuses@, bridge_domain@))),
        plain_export(statuses@, bridge_domain@) ==> r->Ok_0@ == csv_plain_text(
            import_records(statuses@, bridge_domain@),
        ),
{
    proof {
        if plain_export(statuses@, bridge_domain@) {
            lemma_import_records_are_plain(statuses@, bridge_domain@);
        }
    }
    let mut csv_writer = CsvBuffer::new();
    match write_statuses_to_import_csv(&mut csv_writer, statuses, bridge_domain) {
        Ok(()) => {},
        Err(e) => {
            return Err(e);
        },
    }
    assert(csv_records(csv_writer) =~= import_records(statuses@, bridge_domain@));
    let bytes = match csv_into_bytes(csv_writer) {
        Some(bytes) => bytes,
        None => {
            return Err(ExportError::Flush);
        },
    };
    match utf8_to_string(bytes) {
        Ok(text) => Ok(text),
        Err(_) => Err(ExportError::Encoding),
    }
}

/// The number of line ends in a text.
pub open spec fn line_ends(text: Seq<char>) -> nat
    decreases text.len(),
{
    if text.len() == 0 {
        0
    } else {
        line_ends(text.drop_last()) + if text.last() == '\n' {
            1nat
        } else {
            0nat
        }
    }
}

/// The number of entries that are ready to follow.
pub open spec fn ready_count(followers: Seq<BridgedFollower>) -> nat
    decreases followers.len(),
{
    if followers.len() == 0 {
        0
    } else {
        ready_count(followers.drop_last()) + if followers.last().status
            == FollowerStatus::ReadyToFollow {
            1nat
        } else {
            0nat
        }
    }
}

proof fn lemma_line_ends_concat(a: Seq<char>, b: Seq<char>)
    ensures
        line_ends(a + b) == line_ends(a) + line_ends(b),
    decreases b.len(),
{
    if b.len() == 0 {
        assert(a + b =~= a);
    } else {
        assert((a + b).drop_last() =~= a + b.drop_last());
        lemma_line_ends_concat(a, b.drop_last());
    }
}

proof fn lemma_no_line_end(text: Seq<char>)
    requires
        !text.contains('\n'),
    ensures
        line_ends(text) == 0,
    decreases text.len(),
{
    if text.len() > 0 {
        assert(text.last() == text[text.len() - 1]);
        assert(!text.drop_last().contains('\n')) by {
            if text.drop_last().contains('\n') {
                let k = choose|k: int| 0 <= k < text.drop_last().len() && text.drop_last()[k] == '\n';
                assert(text[k] == '\n');
            }
        }
        lemma_no_line_end(text.drop_last());
    }
}

proof fn lemma_plain_line(fields: Seq<Seq<char>>)
    requires
        forall|j: int| 0 <= j < fields.len() ==> csv_plain_field(#[trigger] fields[j]),
    ensures
        line_ends(csv_line(fields)) == 0,
    decreases fields.len(),
{
    if fields.len() == 1 {
        assert(csv_plain_field(fields[0]));
        lemma_no_line_end(fields[0]);
    } else if fields.len() > 1 {
        let earlier = fields.drop_last();
        assert forall|j: int| 0 <= j < earlier.len() implies csv_plain_field(#[trigger] earlier[j]) by {
            assert(earlier[j] == fields[j]);
        }
        lemma_plain_line(earlier);
        assert(csv_plain_field(fields[fields.len() - 1]));
        lemma_no_line_end(fields.last());
        lemma_no_line_end(seq![',']);
        lemma_line_ends_concat(csv_line(earlier), seq![',']);
        lemma_line_ends_concat(csv_line(earlier) + seq![','], fields.last());
    }
}

proof fn lemma_plain_text_lines(records: Seq<Seq<Seq<char>>>)
    requires
        csv_plain_records(records),
    ensures
        line_ends(csv_plain_text(records)) == records.len(),
    decreases records.len(),
{
    if records.len() > 0 {
        let earlier = records.drop_last();
        assert forall|i: int| 0 <= i < earlier.len() implies csv_line(#[trigger] earlier[i]).len() > 0
            && forall|j: int| 0 <= j < earlier[i].len() ==> csv_plain_field(#[trigger] earlier[i][j]) by {
            assert(earlier[i] == records[i]);
        }
        lemma_plain_text_lines(earlier);
        let last = records.last();
        assert(last == records[records.len() - 1]);
        assert forall|j: int| 0 <= j < last.len() implies csv_plain_field(#[trigger] last[j]) by {
            assert(csv_plain_field(records[records.len() - 1][j]));
        }
        lemma_plain_line(last);
        lemma_line_ends_concat(csv_plain_text(earlier), csv_line(last));
        lemma_line_ends_concat(csv_plain_text(earlier) + csv_line(last), seq!['\n']);
        assert(seq!['\n'].drop_last() =~= Seq::<char>::empty());
        assert(line_ends(Seq::<char>::empty()) == 0);
        assert(line_ends(seq!['\n']) == 1);
        assert(csv_plain_text(records) == csv_plain_text(earlier) + csv_line(last) + seq!['\n']);
    }
}

proof fn lemma_ready_rows_count(followers: Seq<BridgedFollower>, bridge_domain: Seq<char>)
    ensures
        ready_rows(followers, bridge_domain).len() == ready_count(followers),
    decreases followers.len(),
{
    if followers.len() > 0 {
        lemma_ready_rows_count(followers.drop_last(), bridge_domain);
    }
}

/// Where no field needs quoting, the import text has one line for the header
/// and one for each entry that is ready to follow, and no other line.
pub proof fn lemma_import_text_lines(statuses: Seq<BridgedFollower>, bridge_domain: Seq<char>)
    requires
        plain_export(statuses, bridge_domain),
    ensures
        line_ends(csv_plain_text(import_records(statuses, bridge_domain))) == 1 + ready_count(
            statuses,
        ),
{
    lemma_import_records_are_plain(statuses, bridge_domain);
    lemma_plain_text_lines(import_records(statuses, bridge_domain));
    lemma_ready_rows_count(statuses, bridge_domain);
}

} // verus!
