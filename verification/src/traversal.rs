//! Enumerating and bulk-reading provenance note objects, and extracting the
//! touched-file index from their payloads.
//!
//! The wire protocol of the bulk object reader is a concatenation of
//! per-object records, each `<object-id> SP <type> SP <size> LF` followed by
//! `<size>` bytes of raw content and one LF, or `<object-id> SP missing LF`
//! with no content for an absent object.

use crate::command::ExecOutcome;
use crate::extract::{
    distinct_views, extract_file_paths_from_note, spec_note_paths, view_set, SchemaParseOutcome,
};
use crate::scan::{
    all_digits, bytes_eq, dec_digits, dec_value, digits_val, find_byte, find_from,
    lemma_digits_val_nonneg, lemma_find_from_bounds, parse_usize_dec, split_ws, tokens_from,
    utf8_to_str,
};
use vstd::prelude::*;
use vstd::string::StringSliceAdditionalSpecFns;
use vstd::utf8::{decode_utf8, encode_utf8, valid_utf8};

verus! {

/// Why a traversal query failed as a whole.  Individually malformed notes and
/// records never surface here; they are skipped.
#[derive(Debug, Clone, PartialEq, Eq)]
pub enum TraversalError {
    /// An enumeration or batch-read subprocess failed; the exit code when one
    /// was available.
    CommandFailed { code: Option<i32> },
    /// Subprocess output was not valid UTF-8 where text was required.
    InvalidUtf8,
    /// A batch record header carried an unreadable size field.
    InvalidSize,
}

/// The header tag that marks an absent object in a batch listing.
pub open spec fn missing_tag() -> Seq<u8> {
    seq![109u8, 105u8, 115u8, 115u8, 105u8, 110u8, 103u8]
}

/// The records that batch-output parsing keeps, reading `data` from `pos`:
/// the raw content bytes of each well-formed, present, UTF-8-decodable
/// record, in stream order.  A record whose header says `missing` or whose
/// content is not UTF-8 is skipped; a truncated trailing record ends parsing;
/// a non-UTF-8 header or an unreadable size field fails the whole parse.
pub open spec fn batch_records(data: Seq<u8>, pos: int) -> Result<Seq<Seq<u8>>, TraversalError>
    decreases data.len() + 1 - pos,
        when 0 <= pos
        via batch_records_decreases
{
    if pos >= data.len() {
        Ok(Seq::empty())
    } else {
        let he = find_from(data, pos, 10);
        if he >= data.len() {
            Ok(Seq::empty())
        } else {
            let header = data.subrange(pos, he);
            if !valid_utf8(header) {
                Err(TraversalError::InvalidUtf8)
            } else {
                let parts = tokens_from(header, 0);
                if parts.len() < 2 || parts[1] == missing_tag() || parts.len() < 3 {
                    batch_records(data, he + 1)
                } else {
                    match dec_value(parts[2]) {
                        None => Err(TraversalError::InvalidSize),
                        Some(size) => {
                            let ce = he + 1 + size;
                            if ce > data.len() {
                                Ok(Seq::empty())
                            } else {
                                let content = data.subrange(he + 1, ce);
                                match batch_records(data, ce + 1) {
                                    Err(e) => Err(e),
                                    Ok(rest) => if valid_utf8(content) {
                                        Ok(seq![content] + rest)
                                    } else {
                                        Ok(rest)
                                    },
                                }
                            }
                        },
                    }
                }
            }
        }
    }
}

#[via_fn]
proof fn batch_records_decreases(data: Seq<u8>, pos: int) {
    if 0 <= pos < data.len() {
        lemma_find_from_bounds(data, pos, 10);
        let he = find_from(data, pos, 10);
        if he < data.len() {
            let header = data.subrange(pos, he);
            let parts = tokens_from(header, 0);
            if parts.len() >= 3 {
                match dec_value(parts[2]) {
                    Some(size) => {
                        lemma_digits_val_nonneg(dec_digits(parts[2]));
                    },
                    None => {},
                }
            }
        }
    }
}

/// Every record that `batch_records` keeps is valid UTF-8.
pub proof fn lemma_batch_records_valid(data: Seq<u8>, pos: int)
    requires
        0 <= pos,
        batch_records(data, pos) is Ok,
    ensures
        forall|k: int|
            0 <= k < batch_records(data, pos)->Ok_0.len() ==> valid_utf8(
                #[trigger] batch_records(data, pos)->Ok_0[k],
            ),
    decreases data.len() + 1 - pos,
{
    if pos >= data.len() {
    } else {
        let he = find_from(data, pos, 10);
        lemma_find_from_bounds(data, pos, 10);
        if he >= data.len() {
        } else {
            let header = data.subrange(pos, he);
            if valid_utf8(header) {
                let parts = tokens_from(header, 0);
                if parts.len() < 2 || parts[1] == missing_tag() || parts.len() < 3 {
                    lemma_batch_records_valid(data, he + 1);
                } else {
                    match dec_value(parts[2]) {
                        None => {},
                        Some(size) => {
                            lemma_digits_val_nonneg(dec_digits(parts[2]));
                            let ce = he + 1 + size;
                            if ce <= data.len() {
                                lemma_batch_records_valid(data, ce + 1);
                            }
                        },
                    }
                }
            }
        }
    }
}

/// Skipping a `missing` record leaves the parse of the rest of the stream
/// untouched: the record contributes nothing, and parsing continues at the
/// next header line.
pub proof fn lemma_missing_record_skipped(data: Seq<u8>, pos: int)
    requires
        0 <= pos < data.len(),
        find_from(data, pos, 10) < data.len(),
        valid_utf8(data.subrange(pos, find_from(data, pos, 10))),
        tokens_from(data.subrange(pos, find_from(data, pos, 10)), 0).len() >= 2,
        tokens_from(data.subrange(pos, find_from(data, pos, 10)), 0)[1] == missing_tag(),
    ensures
        batch_records(data, pos) == batch_records(data, find_from(data, pos, 10) + 1),
{
    lemma_find_from_bounds(data, pos, 10);
    let he = find_from(data, pos, 10);
    let header = data.subrange(pos, he);
    let parts = tokens_from(header, 0);
    assert(parts.len() < 2 || parts[1] == missing_tag() || parts.len() < 3);
    assert(batch_records(data, pos) == batch_records(data, he + 1));
}

fn is_missing_tag(tok: &[u8]) -> (r: bool)
    ensures
        r == (tok@ == missing_tag()),
{
    if tok.len() != 7 {
        return false;
    }
    let r = tok[0] == 109 && tok[1] == 105 && tok[2] == 115 && tok[3] == 115 && tok[4] == 105
        && tok[5] == 110 && tok[6] == 103;
    proof {
        if r {
            assert(tok@ =~= missing_tag());
        }
    }
    r
}

/// Combines the records already collected with the parse of the remaining
/// stream.
pub open spec fn with_prefix(
    acc: Seq<Seq<u8>>,
    r: Result<Seq<Seq<u8>>, TraversalError>,
) -> Result<Seq<Seq<u8>>, TraversalError> {
    match r {
        Ok(rest) => Ok(acc + rest),
        Err(e) => Err(e),
    }
}

/// Parse the output of a bulk object read.
///
/// Tolerates absent objects (skipped), content that does not decode as UTF-8
/// (that record only is skipped) and a truncated trailing record (parsing
/// stops and everything collected so far is returned).  A header that is not
/// UTF-8 or a size field that does not parse fails the whole call.
pub fn parse_cat_file_batch_output(data: &[u8]) -> (r: Result<Vec<String>, TraversalError>)
    ensures
        r is Ok <==> batch_records(data@, 0) is Ok,
        r matches Ok(v) ==> {
            &&& v@.len() == batch_records(data@, 0)->Ok_0.len()
            &&& forall|k: int|
                0 <= k < v@.len() ==> #[trigger] v@[k]@ == decode_utf8(
                    batch_records(data@, 0)->Ok_0[k],
                )
        },
        r matches Err(e) ==> batch_records(data@, 0) == Err::<Seq<Seq<u8>>, TraversalError>(e),
{
    let n = data.len();
    let mut results: Vec<String> = Vec::new();
    let ghost mut collected: Seq<Seq<u8>> = Seq::empty();
    let mut pos: usize = 0;
    while pos < n
        invariant
            pos <= n,
            n == data@.len(),
            results@.len() == collected.len(),
            forall|k: int|
                0 <= k < collected.len() ==> #[trigger] results@[k]@ == decode_utf8(collected[k]),
            batch_records(data@, 0) == with_prefix(collected, batch_records(data@, pos as int)),
        decreases n - pos,
    {
        let he = find_byte(data, pos, 10);
        proof {
            lemma_find_from_bounds(data@, pos as int, 10);
        }
        if he >= n {
            proof {
                assert(collected + Seq::<Seq<u8>>::empty() =~= collected);
            }
            return Ok(results);
        }
        let header = vstd::slice::slice_subrange(data, pos, he);
        if utf8_to_str(header).is_none() {
            return Err(TraversalError::InvalidUtf8);
        }
        let parts = split_ws(header);
        let ghost spec_parts = tokens_from(header@, 0);
        if parts.len() < 2 {
            pos = he + 1;
        } else if is_missing_tag(parts[1].as_slice()) {
            assert(spec_parts[1] == missing_tag());
            pos = he + 1;
        } else if parts.len() < 3 {
            assert(spec_parts[1] != missing_tag());
            pos = he + 1;
        } else {
            assert(spec_parts[1] != missing_tag());
            match parse_usize_dec(parts[2].as_slice()) {
                None => {
                    assert(dec_value(spec_parts[2]) is None);
                    return Err(TraversalError::InvalidSize);
                },
                Some(size) => {
                    assert(dec_value(spec_parts[2]) == Some(size as int));
                    let cs = he + 1;
                    if size > n - cs {
                        proof {
                            assert(cs + size > n);
                            assert(batch_records(data@, pos as int) == Ok::<
                                Seq<Seq<u8>>,
                                TraversalError,
                            >(Seq::empty()));
                            assert(collected + Seq::<Seq<u8>>::empty() =~= collected);
                        }
                        return Ok(results);
                    }
                    let ce = cs + size;
                    let content = vstd::slice::slice_subrange(data, cs, ce);
                    let ghost next = batch_records(data@, ce + 1);
                    proof {
                        assert(batch_records(data@, pos as int) == (match next {
                            Err(e) => Err::<Seq<Seq<u8>>, TraversalError>(e),
                            Ok(rest) => if valid_utf8(content@) {
                                Ok(seq![content@] + rest)
                            } else {
                                Ok(rest)
                            },
                        }));
                    }
                    match utf8_to_str(content) {
                        Some(s) => {
                            results.push(s.to_owned());
                            proof {
                                let prior = collected;
                                collected = collected.push(content@);
                                if next is Ok {
                                    assert(collected + next->Ok_0 =~= prior + (seq![content@]
                                        + next->Ok_0));
                                }
                            }
                        },
                        None => {},
                    }
                    if ce >= n {
                        proof {
                            assert(batch_records(data@, ce + 1) == Ok::<
                                Seq<Seq<u8>>,
                                TraversalError,
                            >(Seq::empty()));
                            assert(batch_records(data@, n as int) == Ok::<
                                Seq<Seq<u8>>,
                                TraversalError,
                            >(Seq::empty()));
                        }
                        pos = n;
                    } else {
                        pos = ce + 1;
                    }
                },
            }
        }
    }
    proof {
        assert(collected + Seq::<Seq<u8>>::empty() =~= collected);
    }
    Ok(results)
}

/// The object identifiers that enumerator-output parsing keeps, reading `s`
/// from `i`: for each line of shape `<mode> <type> <object-id>...`, the third
/// whitespace-separated field; lines with fewer than three fields are
/// ignored.
pub open spec fn shas_from(s: Seq<u8>, i: int) -> Seq<Seq<u8>>
    decreases s.len() + 1 - i,
        when 0 <= i
        via shas_from_decreases
{
    if i >= s.len() {
        Seq::empty()
    } else {
        let le = find_from(s, i, 10);
        let line = s.subrange(i, le);
        let parts = tokens_from(line, 0);
        let rest = shas_from(s, le + 1);
        if parts.len() >= 3 && valid_utf8(parts[2]) {
            seq![parts[2]] + rest
        } else {
            rest
        }
    }
}

#[via_fn]
proof fn shas_from_decreases(s: Seq<u8>, i: int) {
    if 0 <= i < s.len() {
        lemma_find_from_bounds(s, i, 10);
    }
}

/// What enumerating the provenance-notes namespace yields, given the observed
/// outcome of the listing command: an absent namespace (the specific "not
/// found" exit code, 128) is an empty list, not an error; any other failure
/// propagates; on success the listing is parsed line by line.
pub open spec fn spec_note_shas(outcome: ExecOutcome) -> Result<Seq<Seq<u8>>, TraversalError> {
    match outcome {
        ExecOutcome::Failure { code } => if code == Some(128i32) {
            Ok(Seq::empty())
        } else {
            Err(TraversalError::CommandFailed { code })
        },
        ExecOutcome::Output { stdout } => if valid_utf8(stdout@) {
            Ok(shas_from(stdout@, 0))
        } else {
            Err(TraversalError::InvalidUtf8)
        },
    }
}

/// Extract the note blob object identifiers from the observed outcome of
/// listing the provenance-notes namespace.
pub fn get_note_blob_shas(outcome: &ExecOutcome) -> (r: Result<Vec<String>, TraversalError>)
    ensures
        r is Ok <==> spec_note_shas(*outcome) is Ok,
        r matches Ok(v) ==> {
            &&& v@.len() == spec_note_shas(*outcome)->Ok_0.len()
            &&& forall|k: int|
                0 <= k < v@.len() ==> #[trigger] v@[k]@ == decode_utf8(
                    spec_note_shas(*outcome)->Ok_0[k],
                )
        },
        r matches Err(e) ==> spec_note_shas(*outcome) == Err::<Seq<Seq<u8>>, TraversalError>(e),
{
    let stdout: &Vec<u8> = match outcome {
        ExecOutcome::Failure { code } => {
            let not_found = match code {
                Some(c) => *c == 128,
                None => false,
            };
            if not_found {
                return Ok(Vec::new());
            }
            return Err(TraversalError::CommandFailed { code: *code });
        },
        ExecOutcome::Output { stdout } => stdout,
    };
    let data = stdout.as_slice();
    if utf8_to_str(data).is_none() {
        return Err(TraversalError::InvalidUtf8);
    }
    let n = data.len();
    let mut results: Vec<String> = Vec::new();
    let ghost mut collected: Seq<Seq<u8>> = Seq::empty();
    let mut pos: usize = 0;
    while pos < n
        invariant
            pos <= n,
            n == data@.len(),
            results@.len() == collected.len(),
            forall|k: int|
                0 <= k < collected.len() ==> #[trigger] results@[k]@ == decode_utf8(collected[k]),
            shas_from(data@, 0) == collected + shas_from(data@, pos as int),
        decreases n - pos,
    {
        let le = find_byte(data, pos, 10);
        proof {
            lemma_find_from_bounds(data@, pos as int, 10);
        }
        let line = vstd::slice::slice_subrange(data, pos, le);
        let parts = split_ws(line);
        let ghost spec_parts = tokens_from(line@, 0);
        if parts.len() >= 3 {
            match utf8_to_str(parts[2].as_slice()) {
                Some(s) => {
                    results.push(s.to_owned());
                    proof {
                        let prior = collected;
                        collected = collected.push(spec_parts[2]);
                        assert(collected + shas_from(data@, le + 1) =~= prior + (seq![
                            spec_parts[2],
                        ] + shas_from(data@, le + 1)));
                    }
                },
                None => {},
            }
        }
        if le >= n {
            proof {
                assert(shas_from(data@, le + 1) == Seq::<Seq<u8>>::empty());
                assert(shas_from(data@, n as int) == Seq::<Seq<u8>>::empty());
            }
            pos = n;
        } else {
            pos = le + 1;
        }
    }
    proof {
        assert(collected + Seq::<Seq<u8>>::empty() =~= collected);
        assert(spec_note_shas(*outcome) == Ok::<Seq<Seq<u8>>, TraversalError>(collected));
    }
    Ok(results)
}

/// What a bulk read of the given number of object identifiers yields, given
/// the observed outcome of the batch command: an empty identifier list
/// short-circuits to an empty result with no round trip; a command failure
/// propagates; otherwise the batch stream is parsed.
pub open spec fn spec_batch_contents(n_shas: int, outcome: ExecOutcome) -> Result<
    Seq<Seq<u8>>,
    TraversalError,
> {
    if n_shas == 0 {
        Ok(Seq::empty())
    } else {
        match outcome {
            ExecOutcome::Failure { code } => Err(TraversalError::CommandFailed { code }),
            ExecOutcome::Output { stdout } => batch_records(stdout@, 0),
        }
    }
}

/// Read the contents of the given note blobs out of the observed outcome of
/// one bulk object-retrieval round trip.
pub fn batch_read_blobs(blob_shas: &Vec<String>, outcome: &ExecOutcome) -> (r: Result<
    Vec<String>,
    TraversalError,
>)
    ensures
        r is Ok <==> spec_batch_contents(blob_shas@.len() as int, *outcome) is Ok,
        r matches Ok(v) ==> {
            &&& v@.len() == spec_batch_contents(blob_shas@.len() as int, *outcome)->Ok_0.len()
            &&& forall|k: int|
                0 <= k < v@.len() ==> #[trigger] v@[k]@ == decode_utf8(
                    spec_batch_contents(blob_shas@.len() as int, *outcome)->Ok_0[k],
                )
        },
        r matches Err(e) ==> spec_batch_contents(blob_shas@.len() as int, *outcome) == Err::<
            Seq<Seq<u8>>,
            TraversalError,
        >(e),
{
    if blob_shas.is_empty() {
        return Ok(Vec::new());
    }
    match outcome {
        ExecOutcome::Failure { code } => Err(TraversalError::CommandFailed { code: *code }),
        ExecOutcome::Output { stdout } => parse_cat_file_batch_output(stdout.as_slice()),
    }
}

/// The identifiers written to the bulk request, one per line: each one
/// followed by a line feed.
pub open spec fn joined_lines(shas: Seq<String>, i: int) -> Seq<char>
    decreases shas.len() - i,
{
    if 0 <= i < shas.len() {
        shas[i]@ + seq!['\n'] + joined_lines(shas, i + 1)
    } else {
        Seq::empty()
    }
}

/// Build the input of the bulk object-retrieval request: one object
/// identifier per line.
pub fn batch_request_input(blob_shas: &Vec<String>) -> (r: String)
    ensures
        r@ == joined_lines(blob_shas@, 0),
{
    let n = blob_shas.len();
    let mut r = String::new();
    let mut i: usize = 0;
    proof {
        reveal_strlit("\n");
    }
    while i < n
        invariant
            i <= n,
            n == blob_shas@.len(),
            ("\n")@ =~= seq!['\n'],
            joined_lines(blob_shas@, 0) == r@ + joined_lines(blob_shas@, i as int),
        decreases n - i,
    {
        let ghost prior = r@;
        r.append(blob_shas[i].as_str());
        r.append("\n");
        proof {
            assert(r@ + joined_lines(blob_shas@, i + 1) =~= prior + (blob_shas@[i as int]@ + seq![
                '\n',
            ] + joined_lines(blob_shas@, i + 1)));
        }
        i += 1;
    }
    proof {
        assert(r@ + Seq::<char>::empty() =~= r@);
    }
    r
}

/// The touched-file index contributed by the first `n` note payloads, each
/// paired with the external schema parser's verdict on its document.
pub open spec fn spec_touched_set(
    contents: Seq<Seq<u8>>,
    parses: Seq<SchemaParseOutcome>,
    n: int,
) -> Set<Seq<char>>
    decreases n,
{
    if n <= 0 {
        Set::empty()
    } else {
        spec_touched_set(contents, parses, n - 1).union(
            spec_note_paths(contents[n - 1], parses[n - 1]),
        )
    }
}

/// The touched-file index that the whole traversal pipeline yields from its
/// observed outcomes: enumerate, short-circuit an empty namespace, bulk-read,
/// extract into one deduplicated set.
pub open spec fn spec_touched_index(
    ls: ExecOutcome,
    batch: ExecOutcome,
    parses: Seq<SchemaParseOutcome>,
) -> Result<Set<Seq<char>>, TraversalError> {
    match spec_note_shas(ls) {
        Err(e) => Err(e),
        Ok(shas) => if shas.len() == 0 {
            Ok(Set::empty())
        } else {
            match spec_batch_contents(shas.len() as int, batch) {
                Err(e) => Err(e),
                Ok(contents) => {
                    let m = if contents.len() <= parses.len() {
                        contents.len() as int
                    } else {
                        parses.len() as int
                    };
                    Ok(spec_touched_set(contents, parses, m))
                },
            }
        },
    }
}

/// Build the set of all files that provenance notes attest, from the
/// observed outcomes of the traversal pipeline: the namespace listing, the
/// bulk object read, and the external schema parser's verdict on each note
/// payload in stream order.
///
/// An absent namespace yields an empty set; individually malformed or
/// rejected notes are skipped silently; only enumeration- or read-level
/// failures surface as errors.  The result holds each path once.
pub fn load_all_ai_touched_files_sync(
    ls_tree: &ExecOutcome,
    batch: &ExecOutcome,
    parses: &Vec<SchemaParseOutcome>,
) -> (r: Result<Vec<String>, TraversalError>)
    ensures
        r is Ok <==> spec_touched_index(*ls_tree, *batch, parses@) is Ok,
        r matches Ok(v) ==> {
            &&& distinct_views(v@)
            &&& view_set(v@) == spec_touched_index(*ls_tree, *batch, parses@)->Ok_0
        },
        r matches Err(e) ==> spec_touched_index(*ls_tree, *batch, parses@) == Err::<
            Set<Seq<char>>,
            TraversalError,
        >(e),
{
    broadcast use vstd::utf8::decode_utf8_encode_utf8;

    let shas = match get_note_blob_shas(ls_tree) {
        Ok(v) => v,
        Err(e) => {
            return Err(e);
        },
    };
    if shas.is_empty() {
        proof {
            assert(view_set(Seq::<String>::empty()) =~= Set::<Seq<char>>::empty());
        }
        return Ok(Vec::new());
    }
    let contents = match batch_read_blobs(&shas, batch) {
        Ok(v) => v,
        Err(e) => {
            return Err(e);
        },
    };
    let ghost raw = spec_batch_contents(shas@.len() as int, *batch)->Ok_0;
    proof {
        match batch {
            ExecOutcome::Output { stdout } => {
                lemma_batch_records_valid(stdout@, 0);
            },
            ExecOutcome::Failure { .. } => {},
        }
    }
    let m = if contents.len() <= parses.len() {
        contents.len()
    } else {
        parses.len()
    };
    let mut files: Vec<String> = Vec::new();
    proof {
        assert(view_set(Seq::<String>::empty()) =~= Set::<Seq<char>>::empty());
    }
    let mut i: usize = 0;
    while i < m
        invariant
            i <= m,
            m <= contents@.len() && m <= parses@.len(),
            m == if contents@.len() <= parses@.len() {
                contents@.len() as int
            } else {
                parses@.len() as int
            },
            contents@.len() == raw.len(),
            forall|k: int|
                0 <= k < raw.len() ==> #[trigger] contents@[k]@ == decode_utf8(raw[k]),
            forall|k: int| 0 <= k < raw.len() ==> valid_utf8(#[trigger] raw[k]),
            distinct_views(files@),
            view_set(files@) == spec_touched_set(raw, parses@, i as int),
        decreases m - i,
    {
        broadcast use vstd::utf8::decode_utf8_encode_utf8;

        let content = contents[i].as_str();
        proof {
            assert(content.spec_bytes() == encode_utf8(decode_utf8(raw[i as int])));
            assert(content.spec_bytes() == raw[i as int]);
        }
        extract_file_paths_from_note(content, &parses[i], &mut files);
        i += 1;
    }
    Ok(files)
}

/// Idempotence of the index build: from the same observed outcomes, any two
/// results the builder admits succeed together and carry the same set of
/// paths.
pub proof fn lemma_touched_index_idempotent(
    ls: ExecOutcome,
    batch: ExecOutcome,
    parses: Seq<SchemaParseOutcome>,
    r1: Result<Vec<String>, TraversalError>,
    r2: Result<Vec<String>, TraversalError>,
)
    requires
        r1 is Ok <==> spec_touched_index(ls, batch, parses) is Ok,
        r2 is Ok <==> spec_touched_index(ls, batch, parses) is Ok,
        r1 matches Ok(v) ==> view_set(v@) == spec_touched_index(ls, batch, parses)->Ok_0,
        r2 matches Ok(v) ==> view_set(v@) == spec_touched_index(ls, batch, parses)->Ok_0,
    ensures
        r1 is Ok <==> r2 is Ok,
        r1 is Ok ==> view_set(r1->Ok_0@) == view_set(r2->Ok_0@),
{
}

/// An absent provenance namespace — the listing command failed with the
/// specific "not found" exit code — yields an empty index and no error,
/// whatever the other observations were.
pub proof fn lemma_no_namespace_empty_index(batch: ExecOutcome, parses: Seq<SchemaParseOutcome>)
    ensures
        spec_touched_index(ExecOutcome::Failure { code: Some(128i32) }, batch, parses) == Ok::<
            Set<Seq<char>>,
            TraversalError,
        >(Set::empty()),
{
}

} // verus!
