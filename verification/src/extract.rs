//! Attestation file-path extraction from one note payload.
//!
//! A note payload is a text document: an attestation section, a divider line
//! of exactly three hyphens, and a metadata document.  Only the attestation
//! section is read.  The section is resliced in front of a synthetic minimal
//! trailer so that the external schema parser can accept it; what that parser
//! returned is handed back in as a plain value, and every resulting file path
//! is inserted into the caller's accumulating index, deduplicated.  A payload
//! without a divider, or one the parser rejects, contributes nothing.

use vstd::prelude::*;
use vstd::string::StringSliceAdditionalSpecFns;

verus! {

/// The divider that separates the attestation section from the metadata
/// document: LF, three hyphens, LF.
pub open spec fn divider_seq() -> Seq<u8> {
    seq![10u8, 45u8, 45u8, 45u8, 10u8]
}

pub open spec fn divider_at(s: Seq<u8>, i: int) -> bool {
    i + 5 <= s.len() && s.subrange(i, i + 5) == divider_seq()
}

/// Position of the first divider at or after `i`; `s.len()` when there is
/// none.
pub open spec fn first_divider(s: Seq<u8>, i: int) -> int
    decreases s.len() - i,
{
    if 0 <= i && i + 5 <= s.len() {
        if divider_at(s, i) {
            i
        } else {
            first_divider(s, i + 1)
        }
    } else {
        s.len() as int
    }
}

pub open spec fn has_divider(s: Seq<u8>) -> bool {
    first_divider(s, 0) < s.len()
}

/// The synthetic minimal trailer appended to the attestation section: the
/// divider again, then an empty base commit and an empty metadata mapping,
/// the minimum shape the external schema parser accepts.
pub open spec fn schema_trailer() -> Seq<u8> {
    ("\n---\n{\"schema_version\":\"authorship/3.0.0\",\"base_commit_sha\":\"\",\"prompts\":{}}").spec_bytes()
}

/// The document handed to the external schema parser for a payload with a
/// divider: everything before the first divider, then the synthetic trailer.
pub open spec fn schema_document(s: Seq<u8>) -> Seq<u8> {
    s.subrange(0, first_divider(s, 0)) + schema_trailer()
}

fn find_divider(data: &[u8]) -> (r: usize)
    ensures
        r == first_divider(data@, 0),
        r <= data@.len(),
{
    let n = data.len();
    if n < 5 {
        return n;
    }
    let mut i: usize = 0;
    while i <= n - 5
        invariant
            i <= n,
            n >= 5,
            n == data@.len(),
            first_divider(data@, 0) == first_divider(data@, i as int),
        decreases n - i,
    {
        if data[i] == 10 && data[i + 1] == 45 && data[i + 2] == 45 && data[i + 3] == 45 && data[i
            + 4] == 10 {
            proof {
                assert(data@.subrange(i as int, i as int + 5) =~= divider_seq());
            }
            return i;
        }
        proof {
            let sub = data@.subrange(i as int, i as int + 5);
            assert(sub[0] == data@[i as int] && sub[1] == data@[i as int + 1] && sub[2]
                == data@[i as int + 2] && sub[3] == data@[i as int + 3] && sub[4] == data@[i as int
                + 4]);
            assert(!divider_at(data@, i as int));
        }
        i += 1;
    }
    n
}

fn push_bytes(dst: &mut Vec<u8>, src: &[u8])
    ensures
        final(dst)@ == old(dst)@ + src@,
{
    let n = src.len();
    let mut i: usize = 0;
    while i < n
        invariant
            i <= n,
            n == src@.len(),
            dst@ == old(dst)@ + src@.take(i as int),
        decreases n - i,
    {
        let ghost prior = dst@;
        dst.push(src[i]);
        proof {
            assert(dst@ =~= old(dst)@ + src@.take(i + 1));
        }
        i += 1;
    }
    proof {
        assert(old(dst)@ + src@.take(n as int) =~= old(dst)@ + src@);
    }
}

/// Build the document handed to the external schema parser for this payload:
/// the attestation section before the first divider, re-terminated with the
/// synthetic minimal trailer.  `None` when the payload has no divider.
pub fn note_schema_document(content: &str) -> (r: Option<Vec<u8>>)
    ensures
        r is Some <==> has_divider(content.spec_bytes()),
        r matches Some(v) ==> v@ == schema_document(content.spec_bytes()),
{
    let bytes = content.as_bytes();
    let p = find_divider(bytes);
    if p >= bytes.len() {
        return None;
    }
    let mut doc = vstd::slice::slice_to_vec(vstd::slice::slice_subrange(bytes, 0, p));
    let trailer: &str =
        "\n---\n{\"schema_version\":\"authorship/3.0.0\",\"base_commit_sha\":\"\",\"prompts\":{}}";
    push_bytes(&mut doc, trailer.as_bytes());
    Some(doc)
}

/// What the external schema parser made of one note document, as plain
/// values.
pub enum SchemaParseOutcome {
    /// The parser accepted the document; the file path of each attestation,
    /// in order.
    Parsed { file_paths: Vec<String> },
    /// The parser rejected the document.
    Failed,
}

/// The set of path views held in a vector of paths.
pub open spec fn view_set(v: Seq<String>) -> Set<Seq<char>> {
    Set::new(|c: Seq<char>| exists|i: int| 0 <= i < v.len() && v[i]@ == c)
}

/// No two entries hold the same path.
pub open spec fn distinct_views(v: Seq<String>) -> bool {
    forall|i: int, j: int| 0 <= i < j < v.len() ==> v[i]@ != v[j]@
}

/// What one note payload contributes to the touched-file index, given the
/// external parser's verdict on its document: nothing without a divider or on
/// a rejected document, else every attested file path.
pub open spec fn spec_note_paths(bytes: Seq<u8>, p: SchemaParseOutcome) -> Set<Seq<char>> {
    if has_divider(bytes) {
        match p {
            SchemaParseOutcome::Parsed { file_paths } => view_set(file_paths@),
            SchemaParseOutcome::Failed => Set::empty(),
        }
    } else {
        Set::empty()
    }
}

fn insert_path(files: &mut Vec<String>, path: &String)
    requires
        distinct_views(old(files)@),
    ensures
        distinct_views(final(files)@),
        final(files)@.len() >= old(files)@.len(),
        final(files)@.take(old(files)@.len() as int) == old(files)@,
        view_set(final(files)@) == view_set(old(files)@).insert(path@),
{
    let n = files.len();
    let mut i: usize = 0;
    while i < n
        invariant
            i <= n,
            n == files@.len(),
            files@ == old(files)@,
            distinct_views(files@),
            forall|k: int| 0 <= k < i ==> #[trigger] files@[k]@ != path@,
        decreases n - i,
    {
        if files[i].eq(path) {
            proof {
                assert(files@.take(n as int) =~= files@);
                assert(view_set(files@).contains(path@));
                assert(view_set(files@) =~= view_set(old(files)@).insert(path@));
            }
            return;
        }
        i += 1;
    }
    let ghost prior = files@;
    files.push(path.clone());
    proof {
        assert(files@.take(prior.len() as int) =~= prior);
        assert(files@[prior.len() as int]@ == path@);
        assert forall|a: int, b: int| 0 <= a < b < files@.len() implies files@[a]@ != files@[b]@ by {
            if b < prior.len() {
                assert(prior[a]@ != prior[b]@);
            } else {
                assert(files@[b]@ == path@);
                assert(files@[a]@ == prior[a]@);
            }
        }
        assert forall|c: Seq<char>| #[trigger]
            view_set(files@).contains(c) implies view_set(prior).insert(path@).contains(c) by {
            let w = choose|w: int| 0 <= w < files@.len() && files@[w]@ == c;
            if w < prior.len() {
                assert(view_set(prior).contains(c));
            } else {
                assert(c == path@);
            }
        }
        assert forall|c: Seq<char>| #[trigger]
            view_set(prior).insert(path@).contains(c) implies view_set(files@).contains(c) by {
            if c == path@ {
                assert(files@[prior.len() as int]@ == c);
            } else {
                let w = choose|w: int| 0 <= w < prior.len() && prior[w]@ == c;
                assert(files@[w]@ == c);
            }
        }
        assert(view_set(files@) =~= view_set(prior).insert(path@));
    }
}

/// Insert into `files` every file path that this note payload attests,
/// given the external schema parser's verdict on its document.  A payload
/// without a divider, or a rejected document, contributes nothing and raises
/// nothing; paths already present are not repeated.
pub fn extract_file_paths_from_note(
    content: &str,
    parse: &SchemaParseOutcome,
    files: &mut Vec<String>,
)
    requires
        distinct_views(old(files)@),
    ensures
        distinct_views(final(files)@),
        final(files)@.len() >= old(files)@.len(),
        final(files)@.take(old(files)@.len() as int) == old(files)@,
        view_set(final(files)@) == view_set(old(files)@).union(
            spec_note_paths(content.spec_bytes(), *parse),
        ),
{
    let bytes = content.as_bytes();
    let p = find_divider(bytes);
    if p >= bytes.len() {
        proof {
            assert(files@.take(files@.len() as int) =~= files@);
            assert(view_set(files@).union(Set::empty()) =~= view_set(files@));
        }
        return;
    }
    match parse {
        SchemaParseOutcome::Failed => {
            proof {
                assert(files@.take(files@.len() as int) =~= files@);
                assert(view_set(files@).union(Set::empty()) =~= view_set(files@));
            }
        },
        SchemaParseOutcome::Parsed { file_paths } => {
            let m = file_paths.len();
            let ghost base = old(files)@;
            let mut i: usize = 0;
            proof {
                assert(view_set(file_paths@.take(0)) =~= Set::<Seq<char>>::empty());
                assert(view_set(base).union(view_set(file_paths@.take(0))) =~= view_set(base));
            }
            while i < m
                invariant
                    i <= m,
                    m == file_paths@.len(),
                    base == old(files)@,
                    distinct_views(files@),
                    files@.len() >= base.len(),
                    files@.take(base.len() as int) == base,
                    view_set(files@) == view_set(base).union(view_set(file_paths@.take(i as int))),
                decreases m - i,
            {
                let ghost prior = files@;
                insert_path(files, &file_paths[i]);
                proof {
                    assert(files@.take(base.len() as int) =~= base);
                    let tnext = file_paths@.take(i + 1);
                    assert forall|c: Seq<char>| #[trigger]
                        view_set(tnext).contains(c) implies view_set(
                        file_paths@.take(i as int),
                    ).insert(file_paths@[i as int]@).contains(c) by {
                        let w = choose|w: int| 0 <= w < tnext.len() && tnext[w]@ == c;
                        if w < i {
                            assert(file_paths@.take(i as int)[w]@ == c);
                        } else {
                            assert(c == file_paths@[i as int]@);
                        }
                    }
                    assert forall|c: Seq<char>| #[trigger]
                        view_set(file_paths@.take(i as int)).insert(
                        file_paths@[i as int]@,
                    ).contains(c) implies view_set(tnext).contains(c) by {
                        if c == file_paths@[i as int]@ {
                            assert(tnext[i as int]@ == c);
                        } else {
                            let w = choose|w: int|
                                0 <= w < i && file_paths@.take(i as int)[w]@ == c;
                            assert(tnext[w]@ == c);
                        }
                    }
                    assert(view_set(tnext) =~= view_set(file_paths@.take(i as int)).insert(
                        file_paths@[i as int]@,
                    ));
                    assert(view_set(files@) =~= view_set(base).union(view_set(tnext)));
                }
                i += 1;
            }
            proof {
                assert(file_paths@.take(m as int) =~= file_paths@);
            }
        },
    }
}

} // verus!
