//! Records and their canonical encoding.
//!
//! A record is either a file record or a metadata record. Each is encoded as
//! an ordered map whose fields stand in one fixed schema order, so that equal
//! field values always give byte-identical output: no clock, counter or
//! randomness can reach the encoding. Empty text, empty content and an empty
//! link list are all legal and encode as empty instances of their item types,
//! never as absent fields. Each link of a metadata record is the textual form
//! of an identifier and is embedded in its parsed, binary form; a link that
//! does not parse fails the whole encoding with a typed error naming the
//! first offending entry.

use vstd::prelude::*;

use crate::cbor::{push_bytes, push_head, push_text, push_uint, spec_bytes, spec_head, spec_text,
    spec_uint, MAJOR_ARRAY, MAJOR_BYTES, MAJOR_MAP, MAJOR_TAG, MAJOR_TEXT, MAJOR_UINT};
use crate::cid::{cid_binary, parse_cid, spec_cid_bytes, spec_parse_cid, wf_cid, CidV, Identifier};
use crate::err::Error;

verus! {

/// A typed record, the unit a caller submits for storage.
pub enum Record {
    /// A stored file: an opaque owner identity, a path, a content type, the
    /// raw content, and a timestamp supplied by the caller.
    File { owner: Vec<u8>, path: Vec<u8>, content_type: Vec<u8>, content: Vec<u8>, time: u64 },
    /// Descriptive metadata: a name, a description, an image reference, and
    /// an ordered list of links, each the textual form of an identifier of
    /// another stored block.
    Metadata { name: Vec<u8>, description: Vec<u8>, image: Vec<u8>, links: Vec<Vec<u8>> },
}

/// The mathematical value of a record.
pub ghost enum RecordV {
    File { owner: Seq<u8>, path: Seq<u8>, content_type: Seq<u8>, content: Seq<u8>, time: u64 },
    Metadata { name: Seq<u8>, description: Seq<u8>, image: Seq<u8>, links: Seq<Seq<u8>> },
}

impl View for Record {
    type V = RecordV;

    open spec fn view(&self) -> RecordV {
        match self {
            Record::File { owner, path, content_type, content, time } => RecordV::File {
                owner: owner@,
                path: path@,
                content_type: content_type@,
                content: content@,
                time: *time,
            },
            Record::Metadata { name, description, image, links } => RecordV::Metadata {
                name: name@,
                description: description@,
                image: image@,
                links: links_view(links@),
            },
        }
    }
}

/// The element-wise view of a link list.
pub open spec fn links_view(links: Seq<Vec<u8>>) -> Seq<Seq<u8>> {
    links.map_values(|l: Vec<u8>| l@)
}

/// The map key of the owner field ("owner").
pub open spec fn key_owner() -> Seq<u8> {
    seq![111u8, 119u8, 110u8, 101u8, 114u8]
}

/// The map key of the path field ("path").
pub open spec fn key_path() -> Seq<u8> {
    seq![112u8, 97u8, 116u8, 104u8]
}

/// The map key of the content type field ("type").
pub open spec fn key_type() -> Seq<u8> {
    seq![116u8, 121u8, 112u8, 101u8]
}

/// The map key of the content field ("content").
pub open spec fn key_content() -> Seq<u8> {
    seq![99u8, 111u8, 110u8, 116u8, 101u8, 110u8, 116u8]
}

/// The map key of the time field ("time").
pub open spec fn key_time() -> Seq<u8> {
    seq![116u8, 105u8, 109u8, 101u8]
}

/// The map key of the name field ("name").
pub open spec fn key_name() -> Seq<u8> {
    seq![110u8, 97u8, 109u8, 101u8]
}

/// The map key of the description field ("description").
pub open spec fn key_description() -> Seq<u8> {
    seq![100u8, 101u8, 115u8, 99u8, 114u8, 105u8, 112u8, 116u8, 105u8, 111u8, 110u8]
}

/// The map key of the image field ("image").
pub open spec fn key_image() -> Seq<u8> {
    seq![105u8, 109u8, 97u8, 103u8, 101u8]
}

/// The map key of the links field ("links").
pub open spec fn key_links() -> Seq<u8> {
    seq![108u8, 105u8, 110u8, 107u8, 115u8]
}

/// The canonical bytes of a file record: a five-entry map whose fields stand
/// in the fixed order owner, path, type, content, time.
pub open spec fn spec_encode_file(
    owner: Seq<u8>,
    path: Seq<u8>,
    content_type: Seq<u8>,
    content: Seq<u8>,
    time: u64,
) -> Seq<u8> {
    spec_head(MAJOR_MAP, 5) + spec_text(key_owner()) + spec_text(owner) + spec_text(key_path())
        + spec_text(path) + spec_text(key_type()) + spec_text(content_type) + spec_text(
        key_content(),
    ) + spec_bytes(content) + spec_text(key_time()) + spec_uint(time)
}

/// One link item: a tag-42 item wrapping the binary form of the linked
/// identifier behind a single zero prefix byte.
pub open spec fn spec_link(c: CidV) -> Seq<u8> {
    spec_head(MAJOR_TAG, 42) + spec_bytes(seq![0u8] + spec_cid_bytes(c))
}

/// The concatenated link items of a link list.
pub open spec fn spec_links_body(cids: Seq<CidV>) -> Seq<u8>
    decreases cids.len(),
{
    if cids.len() == 0 {
        Seq::empty()
    } else {
        spec_link(cids[0]) + spec_links_body(cids.skip(1))
    }
}

/// Extending a link list appends that link's item to the body.
pub proof fn lemma_links_body_push(cids: Seq<CidV>, c: CidV)
    ensures
        spec_links_body(cids.push(c)) == spec_links_body(cids) + spec_link(c),
    decreases cids.len(),
{
    if cids.len() == 0 {
        let p = cids.push(c);
        assert(p.skip(1) =~= Seq::<CidV>::empty());
        assert(spec_links_body(Seq::<CidV>::empty()) == Seq::<u8>::empty());
        assert(p[0] == c);
        assert(spec_links_body(p) == spec_link(c) + Seq::<u8>::empty());
        assert(spec_link(c) + Seq::<u8>::empty() =~= Seq::<u8>::empty() + spec_link(c));
    } else {
        assert(cids.push(c)[0] == cids[0]);
        assert(cids.push(c).skip(1) =~= cids.skip(1).push(c));
        lemma_links_body_push(cids.skip(1), c);
        assert(spec_links_body(cids.push(c)) == spec_link(cids[0]) + (spec_links_body(cids.skip(1))
            + spec_link(c)));
        assert(spec_link(cids[0]) + (spec_links_body(cids.skip(1)) + spec_link(c)) =~= (spec_link(
            cids[0],
        ) + spec_links_body(cids.skip(1))) + spec_link(c));
    }
}

/// The canonical bytes of a metadata record: a four-entry map whose fields
/// stand in the fixed order name, description, image, links.
pub open spec fn spec_encode_metadata(
    name: Seq<u8>,
    description: Seq<u8>,
    image: Seq<u8>,
    cids: Seq<CidV>,
) -> Seq<u8> {
    spec_head(MAJOR_MAP, 4) + spec_text(key_name()) + spec_text(name) + spec_text(
        key_description(),
    ) + spec_text(description) + spec_text(key_image()) + spec_text(image) + spec_text(key_links())
        + spec_head(MAJOR_ARRAY, cids.len()) + spec_links_body(cids)
}

/// Whether every link of a link list parses as an identifier.
pub open spec fn all_links_ok(links: Seq<Seq<u8>>) -> bool {
    forall|i: int| 0 <= i < links.len() ==> spec_parse_cid(#[trigger] links[i]) is Some
}

/// The parsed identifiers of a link list.
pub open spec fn parsed_links(links: Seq<Seq<u8>>) -> Seq<CidV> {
    Seq::new(links.len(), |i: int| spec_parse_cid(links[i]).unwrap())
}

/// Whether a record encodes at all: a file record always does, a metadata
/// record exactly when every one of its links parses.
pub open spec fn encode_ok(r: RecordV) -> bool {
    match r {
        RecordV::File { .. } => true,
        RecordV::Metadata { links, .. } => all_links_ok(links),
    }
}

/// The canonical bytes of a record, meaningful when `encode_ok` holds.
pub open spec fn spec_encode(r: RecordV) -> Seq<u8> {
    match r {
        RecordV::File { owner, path, content_type, content, time } => spec_encode_file(
            owner,
            path,
            content_type,
            content,
            time,
        ),
        RecordV::Metadata { name, description, image, links } => spec_encode_metadata(
            name,
            description,
            image,
            parsed_links(links),
        ),
    }
}

/// Encodes a record into its canonical bytes.
///
/// Encoding is a pure function of the record's field values. It fails only
/// on a metadata record one of whose links is not the textual form of an
/// identifier, and then names the first offending entry.
#[verifier::loop_isolation(false)]
#[verifier::rlimit(100)]
pub fn encode(r: &Record) -> (res: Result<Vec<u8>, Error>)
    ensures
        match res {
            Ok(b) => encode_ok(r@) && b@ == spec_encode(r@),
            Err(e) => match e {
                Error::InvalidLink(i) => match r@ {
                    RecordV::Metadata { links, .. } => i < links.len() && spec_parse_cid(
                        links[i as int],
                    ) is None && (forall|j: int|
                        0 <= j < i ==> spec_parse_cid(#[trigger] links[j]) is Some),
                    _ => false,
                },
                _ => false,
            },
        },
        res is Ok <==> encode_ok(r@),
{
    match r {
        Record::File { owner, path, content_type, content, time } => {
            let mut out: Vec<u8> = Vec::new();
            push_head(&mut out, MAJOR_MAP, 5);
            let k_owner: Vec<u8> = vec![111u8, 119u8, 110u8, 101u8, 114u8];
            assert(k_owner@ =~= key_owner());
            push_text(&mut out, k_owner.as_slice());
            push_text(&mut out, owner.as_slice());
            let k_path: Vec<u8> = vec![112u8, 97u8, 116u8, 104u8];
            assert(k_path@ =~= key_path());
            push_text(&mut out, k_path.as_slice());
            push_text(&mut out, path.as_slice());
            let k_type: Vec<u8> = vec![116u8, 121u8, 112u8, 101u8];
            assert(k_type@ =~= key_type());
            push_text(&mut out, k_type.as_slice());
            push_text(&mut out, content_type.as_slice());
            let k_content: Vec<u8> = vec![99u8, 111u8, 110u8, 116u8, 101u8, 110u8, 116u8];
            assert(k_content@ =~= key_content());
            push_text(&mut out, k_content.as_slice());
            push_bytes(&mut out, content.as_slice());
            let k_time: Vec<u8> = vec![116u8, 105u8, 109u8, 101u8];
            assert(k_time@ =~= key_time());
            push_text(&mut out, k_time.as_slice());
            push_uint(&mut out, *time);
            proof {
                assert(out@ =~= spec_encode(r@));
            }
            Ok(out)
        },
        Record::Metadata { name, description, image, links } => {
            let ghost linksv = links_view(links@);
            let mut cids: Vec<Identifier> = Vec::new();
            let mut i: usize = 0;
            while i < links.len()
                invariant
                    i <= links@.len(),
                    cids@.len() == i,
                    linksv == links_view(links@),
                    forall|j: int|
                        0 <= j < i ==> spec_parse_cid(#[trigger] linksv[j]) is Some
                            && cids@[j]@ == spec_parse_cid(linksv[j]).unwrap(),
                decreases links@.len() - i,
            {
                assert(linksv[i as int] == links@[i as int]@);
                match parse_cid(links[i].as_slice()) {
                    Some(id) => {
                        cids.push(id);
                    },
                    None => {
                        proof {
                            assert(spec_parse_cid(linksv[i as int]) is None);
                            assert(!all_links_ok(linksv));
                        }
                        return Err(Error::InvalidLink(i));
                    },
                }
                i = i + 1;
            }
            let ghost parsed = parsed_links(linksv);
            assert(forall|j: int| 0 <= j < parsed.len() ==> cids@[j]@ == #[trigger] parsed[j]);
            let mut out: Vec<u8> = Vec::new();
            push_head(&mut out, MAJOR_MAP, 4);
            let k_name: Vec<u8> = vec![110u8, 97u8, 109u8, 101u8];
            assert(k_name@ =~= key_name());
            push_text(&mut out, k_name.as_slice());
            push_text(&mut out, name.as_slice());
            let k_description: Vec<u8> = vec![100u8, 101u8, 115u8, 99u8, 114u8, 105u8, 112u8,
                116u8, 105u8, 111u8, 110u8];
            assert(k_description@ =~= key_description());
            push_text(&mut out, k_description.as_slice());
            push_text(&mut out, description.as_slice());
            let k_image: Vec<u8> = vec![105u8, 109u8, 97u8, 103u8, 101u8];
            assert(k_image@ =~= key_image());
            push_text(&mut out, k_image.as_slice());
            push_text(&mut out, image.as_slice());
            let k_links: Vec<u8> = vec![108u8, 105u8, 110u8, 107u8, 115u8];
            assert(k_links@ =~= key_links());
            push_text(&mut out, k_links.as_slice());
            push_head(&mut out, MAJOR_ARRAY, cids.len() as u64);
            let ghost base = out@;
            assert(parsed.take(0) =~= Seq::<CidV>::empty());
            let mut li: usize = 0;
            while li < cids.len()
                invariant
                    li <= cids@.len(),
                    cids@.len() == parsed.len(),
                    forall|j: int| 0 <= j < parsed.len() ==> cids@[j]@ == #[trigger] parsed[j],
                    out@ == base + spec_links_body(parsed.take(li as int)),
                decreases cids@.len() - li,
            {
                push_head(&mut out, MAJOR_TAG, 42);
                let mut lb: Vec<u8> = Vec::new();
                lb.push(0);
                let mut cb = cid_binary(&cids[li]);
                lb.append(&mut cb);
                assert(lb@ =~= seq![0u8] + spec_cid_bytes(parsed[li as int]));
                push_bytes(&mut out, lb.as_slice());
                proof {
                    lemma_links_body_push(parsed.take(li as int), parsed[li as int]);
                    assert(parsed.take(li + 1) =~= parsed.take(li as int).push(
                        parsed[li as int],
                    ));
                    assert(out@ =~= base + spec_links_body(parsed.take(li + 1)));
                }
                li = li + 1;
            }
            proof {
                assert(parsed.take(parsed.len() as int) =~= parsed);
                assert(out@ =~= spec_encode(r@));
            }
            Ok(out)
        },
    }
}

/// Whether every field of a record is short enough for an eight-byte head
/// argument, the machine limit of the encoding.
pub open spec fn record_fits(r: RecordV) -> bool {
    match r {
        RecordV::File { owner, path, content_type, content, .. } => owner.len()
            < 18446744073709551616 && path.len() < 18446744073709551616 && content_type.len()
            < 18446744073709551616 && content.len() < 18446744073709551616,
        RecordV::Metadata { name, description, image, links } => name.len()
            < 18446744073709551616 && description.len() < 18446744073709551616 && image.len()
            < 18446744073709551616 && links.len() < 18446744073709551616,
    }
}

/// Every identifier parsed from a link is well-formed.
pub proof fn lemma_parsed_links_wf(links: Seq<Seq<u8>>)
    requires
        all_links_ok(links),
    ensures
        forall|i: int|
            0 <= i < links.len() ==> wf_cid(#[trigger] parsed_links(links)[i])
                && parsed_links(links)[i].codec < 18446744073709551616,
{
    assert forall|i: int|
        0 <= i < links.len() implies wf_cid(#[trigger] parsed_links(links)[i])
        && parsed_links(links)[i].codec < 18446744073709551616 by {
        assert(spec_parse_cid(links[i]) is Some);
        assert(parsed_links(links)[i] == spec_parse_cid(links[i]).unwrap());
    }
}

/// Two link items at the front of equal byte strings name equal identifiers
/// and are followed by equal bytes.
proof fn lemma_peel_link(c1: CidV, r1: Seq<u8>, c2: CidV, r2: Seq<u8>)
    requires
        wf_cid(c1),
        wf_cid(c2),
        c1.codec < 18446744073709551616,
        c2.codec < 18446744073709551616,
        spec_link(c1) + r1 == spec_link(c2) + r2,
    ensures
        c1 == c2,
        r1 == r2,
{
    let p1 = seq![0u8] + spec_cid_bytes(c1);
    let p2 = seq![0u8] + spec_cid_bytes(c2);
    crate::cid::lemma_varint_len(c1.codec as nat);
    crate::cid::lemma_varint_len(c2.codec as nat);
    assert(spec_head(MAJOR_TAG, 42) + (spec_head(MAJOR_BYTES, p1.len()) + (p1 + r1)) =~= spec_link(
        c1,
    ) + r1);
    assert(spec_head(MAJOR_TAG, 42) + (spec_head(MAJOR_BYTES, p2.len()) + (p2 + r2)) =~= spec_link(
        c2,
    ) + r2);
    crate::cbor::lemma_peel_head(
        MAJOR_TAG,
        42,
        42,
        spec_head(MAJOR_BYTES, p1.len()) + (p1 + r1),
        spec_head(MAJOR_BYTES, p2.len()) + (p2 + r2),
    );
    assert(spec_head(MAJOR_BYTES, p1.len()) + p1 + r1 =~= spec_head(MAJOR_BYTES, p1.len()) + (p1
        + r1));
    assert(spec_head(MAJOR_BYTES, p2.len()) + p2 + r2 =~= spec_head(MAJOR_BYTES, p2.len()) + (p2
        + r2));
    crate::cbor::lemma_peel_sized(MAJOR_BYTES, p1, r1, p2, r2);
    assert(spec_cid_bytes(c1) =~= p1.skip(1));
    assert(spec_cid_bytes(c2) =~= p2.skip(1));
    assert(spec_cid_bytes(c1) + Seq::<u8>::empty() =~= spec_cid_bytes(c1));
    assert(spec_cid_bytes(c2) + Seq::<u8>::empty() =~= spec_cid_bytes(c2));
    crate::cid::lemma_peel_cid_bytes(c1, Seq::<u8>::empty(), c2, Seq::<u8>::empty());
}

/// Two link bodies of equal count at the front of equal byte strings hold
/// equal identifiers and are followed by equal bytes.
proof fn lemma_peel_links_body(cs1: Seq<CidV>, r1: Seq<u8>, cs2: Seq<CidV>, r2: Seq<u8>)
    requires
        cs1.len() == cs2.len(),
        forall|i: int|
            0 <= i < cs1.len() ==> wf_cid(#[trigger] cs1[i]) && cs1[i].codec
                < 18446744073709551616,
        forall|i: int|
            0 <= i < cs2.len() ==> wf_cid(#[trigger] cs2[i]) && cs2[i].codec
                < 18446744073709551616,
        spec_links_body(cs1) + r1 == spec_links_body(cs2) + r2,
    ensures
        cs1 == cs2,
        r1 == r2,
    decreases cs1.len(),
{
    if cs1.len() == 0 {
        assert(r1 =~= spec_links_body(cs1) + r1);
        assert(r2 =~= spec_links_body(cs2) + r2);
        assert(cs1 =~= cs2);
    } else {
        assert(spec_link(cs1[0]) + (spec_links_body(cs1.skip(1)) + r1) =~= spec_links_body(cs1)
            + r1);
        assert(spec_link(cs2[0]) + (spec_links_body(cs2.skip(1)) + r2) =~= spec_links_body(cs2)
            + r2);
        lemma_peel_link(
            cs1[0],
            spec_links_body(cs1.skip(1)) + r1,
            cs2[0],
            spec_links_body(cs2.skip(1)) + r2,
        );
        lemma_peel_links_body(cs1.skip(1), r1, cs2.skip(1), r2);
        assert(forall|i: int|
            1 <= i < cs1.len() ==> cs1[i] == cs1.skip(1)[i - 1] && cs2[i] == cs2.skip(1)[i - 1]);
        assert(cs1 =~= cs2);
    }
}

/// The canonical bytes of a file record, re-grouped from the right.
proof fn lemma_file_nested(o: Seq<u8>, p: Seq<u8>, ct: Seq<u8>, cn: Seq<u8>, tm: u64)
    ensures
        spec_encode_file(o, p, ct, cn, tm) == spec_head(MAJOR_MAP, 5) + (spec_text(key_owner()) + (
        spec_text(o) + (spec_text(key_path()) + (spec_text(p) + (spec_text(key_type()) + (
        spec_text(ct) + (spec_text(key_content()) + (spec_bytes(cn) + (spec_text(key_time())
            + spec_uint(tm)))))))))),
{
    let a = spec_head(MAJOR_MAP, 5);
    let b = spec_text(key_owner());
    let c = spec_text(o);
    let d = spec_text(key_path());
    let e = spec_text(p);
    let f = spec_text(key_type());
    let g = spec_text(ct);
    let h = spec_text(key_content());
    let i = spec_bytes(cn);
    let j = spec_text(key_time());
    let k = spec_uint(tm);
    vstd::seq_lib::lemma_concat_associative(a + b + c + d + e + f + g + h + i, j, k);
    vstd::seq_lib::lemma_concat_associative(a + b + c + d + e + f + g + h, i, j + k);
    vstd::seq_lib::lemma_concat_associative(a + b + c + d + e + f + g, h, i + (j + k));
    vstd::seq_lib::lemma_concat_associative(a + b + c + d + e + f, g, h + (i + (j + k)));
    vstd::seq_lib::lemma_concat_associative(a + b + c + d + e, f, g + (h + (i + (j + k))));
    vstd::seq_lib::lemma_concat_associative(a + b + c + d, e, f + (g + (h + (i + (j + k)))));
    vstd::seq_lib::lemma_concat_associative(a + b + c, d, e + (f + (g + (h + (i + (j + k))))));
    vstd::seq_lib::lemma_concat_associative(a + b, c, d + (e + (f + (g + (h + (i + (j + k)))))));
    vstd::seq_lib::lemma_concat_associative(a, b, c + (d + (e + (f + (g + (h + (i + (j + k))))))));
}

/// The canonical bytes of a metadata record, re-grouped from the right.
proof fn lemma_metadata_nested(n: Seq<u8>, d0: Seq<u8>, im: Seq<u8>, cs: Seq<CidV>)
    ensures
        spec_encode_metadata(n, d0, im, cs) == spec_head(MAJOR_MAP, 4) + (spec_text(key_name()) + (
        spec_text(n) + (spec_text(key_description()) + (spec_text(d0) + (spec_text(key_image())
            + (spec_text(im) + (spec_text(key_links()) + (spec_head(MAJOR_ARRAY, cs.len())
            + spec_links_body(cs))))))))),
{
    let a = spec_head(MAJOR_MAP, 4);
    let b = spec_text(key_name());
    let c = spec_text(n);
    let d = spec_text(key_description());
    let e = spec_text(d0);
    let f = spec_text(key_image());
    let g = spec_text(im);
    let h = spec_text(key_links());
    let i = spec_head(MAJOR_ARRAY, cs.len());
    let j = spec_links_body(cs);
    vstd::seq_lib::lemma_concat_associative(a + b + c + d + e + f + g + h, i, j);
    vstd::seq_lib::lemma_concat_associative(a + b + c + d + e + f + g, h, i + j);
    vstd::seq_lib::lemma_concat_associative(a + b + c + d + e + f, g, h + (i + j));
    vstd::seq_lib::lemma_concat_associative(a + b + c + d + e, f, g + (h + (i + j)));
    vstd::seq_lib::lemma_concat_associative(a + b + c + d, e, f + (g + (h + (i + j))));
    vstd::seq_lib::lemma_concat_associative(a + b + c, d, e + (f + (g + (h + (i + j)))));
    vstd::seq_lib::lemma_concat_associative(a + b, c, d + (e + (f + (g + (h + (i + j))))));
    vstd::seq_lib::lemma_concat_associative(a, b, c + (d + (e + (f + (g + (h + (i + j)))))));
}

/// The canonical bytes of a file record determine each of its fields.
#[verifier::rlimit(100)]
proof fn lemma_encode_file_injective(
    o1: Seq<u8>, p1: Seq<u8>, ct1: Seq<u8>, cn1: Seq<u8>, tm1: u64,
    o2: Seq<u8>, p2: Seq<u8>, ct2: Seq<u8>, cn2: Seq<u8>, tm2: u64,
)
    requires
        o1.len() < 18446744073709551616,
        p1.len() < 18446744073709551616,
        ct1.len() < 18446744073709551616,
        cn1.len() < 18446744073709551616,
        o2.len() < 18446744073709551616,
        p2.len() < 18446744073709551616,
        ct2.len() < 18446744073709551616,
        cn2.len() < 18446744073709551616,
        spec_encode_file(o1, p1, ct1, cn1, tm1) == spec_encode_file(o2, p2, ct2, cn2, tm2),
    ensures
        o1 == o2,
        p1 == p2,
        ct1 == ct2,
        cn1 == cn2,
        tm1 == tm2,
{
    lemma_file_nested(o1, p1, ct1, cn1, tm1);
    lemma_file_nested(o2, p2, ct2, cn2, tm2);
    let v1 = spec_text(key_path()) + (spec_text(p1) + (spec_text(key_type()) + (spec_text(ct1) + (
    spec_text(key_content()) + (spec_bytes(cn1) + (spec_text(key_time()) + spec_uint(tm1)))))));
    let v2 = spec_text(key_path()) + (spec_text(p2) + (spec_text(key_type()) + (spec_text(ct2) + (
    spec_text(key_content()) + (spec_bytes(cn2) + (spec_text(key_time()) + spec_uint(tm2)))))));
    let w1 = spec_text(key_type()) + (spec_text(ct1) + (spec_text(key_content()) + (spec_bytes(cn1)
        + (spec_text(key_time()) + spec_uint(tm1)))));
    let w2 = spec_text(key_type()) + (spec_text(ct2) + (spec_text(key_content()) + (spec_bytes(cn2)
        + (spec_text(key_time()) + spec_uint(tm2)))));
    let x1 = spec_text(key_content()) + (spec_bytes(cn1) + (spec_text(key_time()) + spec_uint(
        tm1,
    )));
    let x2 = spec_text(key_content()) + (spec_bytes(cn2) + (spec_text(key_time()) + spec_uint(
        tm2,
    )));
    let y1 = spec_text(key_time()) + spec_uint(tm1);
    let y2 = spec_text(key_time()) + spec_uint(tm2);
    crate::cbor::lemma_chop(
        spec_head(MAJOR_MAP, 5),
        spec_text(key_owner()) + (spec_text(o1) + v1),
        spec_text(key_owner()) + (spec_text(o2) + v2),
    );
    crate::cbor::lemma_chop(spec_text(key_owner()), spec_text(o1) + v1, spec_text(o2) + v2);
    crate::cbor::lemma_peel_sized(MAJOR_TEXT, o1, v1, o2, v2);
    crate::cbor::lemma_chop(spec_text(key_path()), spec_text(p1) + w1, spec_text(p2) + w2);
    crate::cbor::lemma_peel_sized(MAJOR_TEXT, p1, w1, p2, w2);
    crate::cbor::lemma_chop(spec_text(key_type()), spec_text(ct1) + x1, spec_text(ct2) + x2);
    crate::cbor::lemma_peel_sized(MAJOR_TEXT, ct1, x1, ct2, x2);
    crate::cbor::lemma_chop(spec_text(key_content()), spec_bytes(cn1) + y1, spec_bytes(cn2) + y2);
    crate::cbor::lemma_peel_sized(MAJOR_BYTES, cn1, y1, cn2, y2);
    crate::cbor::lemma_chop(spec_text(key_time()), spec_uint(tm1), spec_uint(tm2));
    assert(spec_head(MAJOR_UINT, tm1 as nat) + Seq::<u8>::empty() =~= spec_uint(tm1));
    assert(spec_head(MAJOR_UINT, tm2 as nat) + Seq::<u8>::empty() =~= spec_uint(tm2));
    crate::cbor::lemma_peel_head(
        MAJOR_UINT,
        tm1 as nat,
        tm2 as nat,
        Seq::<u8>::empty(),
        Seq::<u8>::empty(),
    );
}

/// The canonical bytes of a metadata record determine its fields and its
/// resolved links.
#[verifier::rlimit(100)]
proof fn lemma_encode_metadata_injective(
    n1: Seq<u8>, d1: Seq<u8>, i1: Seq<u8>, l1: Seq<Seq<u8>>,
    n2: Seq<u8>, d2: Seq<u8>, i2: Seq<u8>, l2: Seq<Seq<u8>>,
)
    requires
        all_links_ok(l1),
        all_links_ok(l2),
        n1.len() < 18446744073709551616,
        d1.len() < 18446744073709551616,
        i1.len() < 18446744073709551616,
        l1.len() < 18446744073709551616,
        n2.len() < 18446744073709551616,
        d2.len() < 18446744073709551616,
        i2.len() < 18446744073709551616,
        l2.len() < 18446744073709551616,
        spec_encode_metadata(n1, d1, i1, parsed_links(l1)) == spec_encode_metadata(
            n2, d2, i2, parsed_links(l2),
        ),
    ensures
        n1 == n2,
        d1 == d2,
        i1 == i2,
        parsed_links(l1) == parsed_links(l2),
{
    let cs1 = parsed_links(l1);
    let cs2 = parsed_links(l2);
    lemma_metadata_nested(n1, d1, i1, cs1);
    lemma_metadata_nested(n2, d2, i2, cs2);
    lemma_parsed_links_wf(l1);
    lemma_parsed_links_wf(l2);
    let v1 = spec_text(key_description()) + (spec_text(d1) + (spec_text(key_image()) + (spec_text(
        i1,
    ) + (spec_text(key_links()) + (spec_head(MAJOR_ARRAY, cs1.len()) + spec_links_body(cs1))))));
    let v2 = spec_text(key_description()) + (spec_text(d2) + (spec_text(key_image()) + (spec_text(
        i2,
    ) + (spec_text(key_links()) + (spec_head(MAJOR_ARRAY, cs2.len()) + spec_links_body(cs2))))));
    let w1 = spec_text(key_image()) + (spec_text(i1) + (spec_text(key_links()) + (spec_head(
        MAJOR_ARRAY,
        cs1.len(),
    ) + spec_links_body(cs1))));
    let w2 = spec_text(key_image()) + (spec_text(i2) + (spec_text(key_links()) + (spec_head(
        MAJOR_ARRAY,
        cs2.len(),
    ) + spec_links_body(cs2))));
    let x1 = spec_text(key_links()) + (spec_head(MAJOR_ARRAY, cs1.len()) + spec_links_body(cs1));
    let x2 = spec_text(key_links()) + (spec_head(MAJOR_ARRAY, cs2.len()) + spec_links_body(cs2));
    crate::cbor::lemma_chop(
        spec_head(MAJOR_MAP, 4),
        spec_text(key_name()) + (spec_text(n1) + v1),
        spec_text(key_name()) + (spec_text(n2) + v2),
    );
    crate::cbor::lemma_chop(spec_text(key_name()), spec_text(n1) + v1, spec_text(n2) + v2);
    crate::cbor::lemma_peel_sized(MAJOR_TEXT, n1, v1, n2, v2);
    crate::cbor::lemma_chop(spec_text(key_description()), spec_text(d1) + w1, spec_text(d2) + w2);
    crate::cbor::lemma_peel_sized(MAJOR_TEXT, d1, w1, d2, w2);
    crate::cbor::lemma_chop(spec_text(key_image()), spec_text(i1) + x1, spec_text(i2) + x2);
    crate::cbor::lemma_peel_sized(MAJOR_TEXT, i1, x1, i2, x2);
    crate::cbor::lemma_chop(
        spec_text(key_links()),
        spec_head(MAJOR_ARRAY, cs1.len()) + spec_links_body(cs1),
        spec_head(MAJOR_ARRAY, cs2.len()) + spec_links_body(cs2),
    );
    crate::cbor::lemma_peel_head(
        MAJOR_ARRAY,
        cs1.len(),
        cs2.len(),
        spec_links_body(cs1),
        spec_links_body(cs2),
    );
    assert(spec_links_body(cs1) + Seq::<u8>::empty() =~= spec_links_body(cs1));
    assert(spec_links_body(cs2) + Seq::<u8>::empty() =~= spec_links_body(cs2));
    lemma_peel_links_body(cs1, Seq::<u8>::empty(), cs2, Seq::<u8>::empty());
}

/// Distinctness: two records that differ in any field - links compared as the
/// identifiers they resolve to - have different canonical bytes. Stated as
/// injectivity of the canonical encoding over the resolved record values.
pub proof fn lemma_encode_injective(r1: RecordV, r2: RecordV)
    requires
        encode_ok(r1),
        encode_ok(r2),
        record_fits(r1),
        record_fits(r2),
        spec_encode(r1) == spec_encode(r2),
    ensures
        match (r1, r2) {
            (RecordV::File { .. }, RecordV::File { .. }) => r1 == r2,
            (
                RecordV::Metadata { name: n1, description: d1, image: i1, links: l1 },
                RecordV::Metadata { name: n2, description: d2, image: i2, links: l2 },
            ) => n1 == n2 && d1 == d2 && i1 == i2 && parsed_links(l1) == parsed_links(l2),
            _ => false,
        },
{
    match (r1, r2) {
        (
            RecordV::File { owner: o1, path: p1, content_type: ct1, content: cn1, time: tm1 },
            RecordV::File { owner: o2, path: p2, content_type: ct2, content: cn2, time: tm2 },
        ) => {
            lemma_encode_file_injective(o1, p1, ct1, cn1, tm1, o2, p2, ct2, cn2, tm2);
        },
        (
            RecordV::Metadata { name: n1, description: d1, image: i1, links: l1 },
            RecordV::Metadata { name: n2, description: d2, image: i2, links: l2 },
        ) => {
            lemma_encode_metadata_injective(n1, d1, i1, l1, n2, d2, i2, l2);
        },
        (RecordV::File { .. }, RecordV::Metadata { .. }) => {
            assert(spec_encode(r1)[0] == 165 && spec_encode(r2)[0] == 164);
        },
        (RecordV::Metadata { .. }, RecordV::File { .. }) => {
            assert(spec_encode(r1)[0] == 164 && spec_encode(r2)[0] == 165);
        },
    }
}

} // verus!

