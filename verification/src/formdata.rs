//! multipart/form-data bodies: boundary-delimited sections, each with
//! its own header block and opaque payload (RFC 7578).
use vstd::prelude::*;
use vstd::string::StrSliceExecFns;
use vstd::string::StringExecFns;
use vstd::utf8::{decode_utf8, encode_utf8, valid_utf8};

use crate::header::{
    spec_header_line_ok,
    spec_line_shape_ok,
    Header,
    ParseHttpError,
    spec_header_line,
    utf8_to_string,
};
use crate::wire::{copy_range, find_from, match_at, spec_find_pat};

verus! {

/// The line terminator.
pub open spec fn spec_crlf() -> Seq<u8> {
    seq![13u8, 10u8]
}

/// Header lines, each terminated by the line terminator.
pub open spec fn spec_header_lines(hs: Seq<Header>) -> Seq<u8>
    decreases hs.len(),
{
    if hs.len() == 0 {
        Seq::empty()
    } else {
        spec_header_lines(hs.drop_last()) + spec_header_line(hs.last()) + spec_crlf()
    }
}

/// The header lines of a region of text: the spans between line
/// terminators, empty lines skipped, a trailing unterminated line kept.
pub open spec fn spec_region_lines(region: Seq<u8>) -> Seq<Seq<u8>>
    decreases region.len(),
{
    if region.len() == 0 {
        Seq::empty()
    } else {
        match spec_find_pat(region, spec_crlf()) {
            Some(q) => {
                if 0 <= q && q + 2 <= region.len() {
                    if q == 0 {
                        spec_region_lines(region.skip(2))
                    } else {
                        seq![region.subrange(0, q)] + spec_region_lines(region.skip(q + 2))
                    }
                } else {
                    seq![region]
                }
            },
            None => seq![region],
        }
    }
}

/// The exact parse of a region of header lines: one parsed header per
/// line, in order.
pub open spec fn spec_headers_exact(region: Seq<u8>, hs: Seq<Header>) -> bool {
    &&& hs.len() == spec_region_lines(region).len()
    &&& forall|k: int|
        0 <= k < hs.len() ==> spec_header_line_ok(
            spec_region_lines(region)[k],
            #[trigger] hs[k],
        )
}

/// Some line of the region is one the header parser rejects.
pub open spec fn spec_region_has_bad_line(region: Seq<u8>) -> bool {
    exists|k: int|
        0 <= k < spec_region_lines(region).len() && !spec_line_shape_ok(
            #[trigger] spec_region_lines(region)[k],
        )
}

/// Parses a region of header lines, one header per line, empty lines
/// skipped.  Fails exactly when some line of the region is malformed.
#[verifier::rlimit(100)]
pub fn parse_header_region(region: &[u8]) -> (r: Result<Vec<Header>, ParseHttpError>)
    ensures
        match r {
            Ok(hs) => spec_headers_exact(region@, hs@),
            Err(e) => {
                &&& e matches ParseHttpError::ParseHeaderError(_)
                &&& spec_region_has_bad_line(region@)
            },
        },
    decreases region@.len(),
{
    if region.len() == 0 {
        let hs: Vec<Header> = Vec::new();
        proof {
            assert(spec_region_lines(region@).len() == 0);
        }
        return Ok(hs);
    }
    match find_from(region, 0, &[13u8, 10u8]) {
        Some(q) => {
            proof {
                assert([13u8, 10u8]@ =~= spec_crlf());
                crate::wire::lemma_find_pat_unique(region@, spec_crlf(), q as int);
            }
            if q == 0 {
                let rest = copy_range(region, 2, region.len());
                proof {
                    assert(rest@ =~= region@.skip(2));
                    assert(spec_region_lines(region@) == spec_region_lines(region@.skip(2)));
                }
                parse_header_region(rest.as_slice())
            } else {
                let line = copy_range(region, 0, q);
                proof {
                    assert(line@ =~= region@.subrange(0, q as int));
                }
                let h = match Header::parse(line.as_slice()) {
                    Ok(h) => h,
                    Err(e) => {
                        proof {
                            assert(spec_region_lines(region@)[0] == line@);
                            assert(spec_region_has_bad_line(region@));
                        }
                        return Err(e);
                    },
                };
                let rest = copy_range(region, q + 2, region.len());
                proof {
                    assert(rest@ =~= region@.skip(q + 2));
                }
                match parse_header_region(rest.as_slice()) {
                    Ok(tail) => {
                        let ghost tailv = tail@;
                        let mut out: Vec<Header> = Vec::new();
                        out.push(h);
                        let mut t = tail;
                        out.append(&mut t);
                        proof {
                            let lines = spec_region_lines(region@);
                            assert(lines =~= seq![line@] + spec_region_lines(rest@));
                            assert(out@ =~= seq![h] + tailv);
                            assert forall|k: int| 0 <= k < out@.len() implies spec_header_line_ok(
                                lines[k],
                                #[trigger] out@[k],
                            ) by {
                                if k == 0 {
                                    assert(out@[0] == h);
                                    assert(lines[0] == line@);
                                } else {
                                    assert(out@[k] == tailv[k - 1]);
                                    assert(lines[k] == spec_region_lines(rest@)[k - 1]);
                                }
                            }
                        }
                        Ok(out)
                    },
                    Err(e) => {
                        proof {
                            let lines = spec_region_lines(region@);
                            assert(lines =~= seq![line@] + spec_region_lines(rest@));
                            let k = choose|k: int|
                                0 <= k < spec_region_lines(rest@).len() && !spec_line_shape_ok(
                                    #[trigger] spec_region_lines(rest@)[k],
                                );
                            assert(lines[k + 1] == spec_region_lines(rest@)[k]);
                            assert(!spec_line_shape_ok(spec_region_lines(region@)[k + 1]));
                            assert(spec_region_has_bad_line(region@));
                        }
                        Err(e)
                    },
                }
            }
        },
        None => {
            proof {
                assert([13u8, 10u8]@ =~= spec_crlf());
                crate::wire::lemma_find_pat_none(region@, spec_crlf());
                assert(spec_region_lines(region@) =~= seq![region@]);
            }
            match Header::parse(region) {
                Ok(h) => {
                    let mut out: Vec<Header> = Vec::new();
                    out.push(h);
                    proof {
                        assert(out@ =~= seq![h]);
                        assert(spec_region_lines(region@)[0] == region@);
                        assert(spec_headers_exact(region@, out@));
                    }
                    Ok(out)
                },
                Err(e) => {
                    proof {
                        assert(!spec_line_shape_ok(spec_region_lines(region@)[0]));
                        assert(spec_region_has_bad_line(region@));
                    }
                    Err(e)
                },
            }
        },
    }
}

/// One section between boundary markers: header lines, a blank line,
/// then the payload bytes.
#[derive(Debug, Clone)]
pub struct FormDataSection {
    pub headers: Vec<Header>,
    pub data: Vec<u8>,
}

impl FormDataSection {
    pub open spec fn spec_wire(self) -> Seq<u8> {
        spec_header_lines(self.headers@) + spec_crlf() + self.data@
    }

    pub fn new(headers: Vec<Header>, data: Vec<u8>) -> (r: Result<FormDataSection, ParseHttpError>)
        ensures
            r matches Ok(s) && s.headers@ == headers@ && s.data@ == data@,
    {
        Ok(FormDataSection { headers, data })
    }

    /// Serializes the section.
    pub fn encode(&self) -> (r: Vec<u8>)
        ensures
            r@ =~= self.spec_wire(),
    {
        let mut out: Vec<u8> = Vec::new();
        let mut k: usize = 0;
        proof {
            assert(self.headers@.subrange(0, 0) =~= Seq::<Header>::empty());
        }
        while k < self.headers.len()
            invariant
                k <= self.headers@.len(),
                out@ =~= spec_header_lines(self.headers@.subrange(0, k as int)),
            decreases self.headers@.len() - k,
        {
            let mut hb = self.headers[k].encode();
            out.append(&mut hb);
            out.push(13);
            out.push(10);
            proof {
                let sub1 = self.headers@.subrange(0, k + 1);
                assert(sub1.drop_last() =~= self.headers@.subrange(0, k as int));
                assert(sub1.last() == self.headers@[k as int]);
                assert(out@ =~= spec_header_lines(sub1));
            }
            k = k + 1;
        }
        proof {
            assert(self.headers@.subrange(0, self.headers@.len() as int) =~= self.headers@);
        }
        out.push(13);
        out.push(10);
        let mut db = copy_range(self.data.as_slice(), 0, self.data.len());
        proof {
            assert(db@ =~= self.data@);
        }
        out.append(&mut db);
        proof {
            assert(out@ =~= self.spec_wire());
        }
        out
    }
}

/// A boundary string and its ordered sections.
#[derive(Debug, Clone)]
pub struct FormData {
    pub boundary: String,
    pub sections: Vec<FormDataSection>,
}

/// The opening marker of a section: two dashes, the boundary, and the
/// line terminator.
pub open spec fn spec_marker(boundary: Seq<char>) -> Seq<u8> {
    seq![45u8, 45u8] + encode_utf8(boundary) + spec_crlf()
}

/// The closing marker: two dashes, the boundary, two dashes.
pub open spec fn spec_final_marker(boundary: Seq<char>) -> Seq<u8> {
    seq![45u8, 45u8] + encode_utf8(boundary) + seq![45u8, 45u8]
}

/// The sections, each preceded by the opening marker and followed by a
/// line terminator.
pub open spec fn spec_sections_wire(boundary: Seq<char>, ss: Seq<FormDataSection>) -> Seq<u8>
    decreases ss.len(),
{
    if ss.len() == 0 {
        Seq::empty()
    } else {
        spec_sections_wire(boundary, ss.drop_last()) + spec_marker(boundary)
            + ss.last().spec_wire() + spec_crlf()
    }
}

/// The blank-line separator between a section's header lines and its
/// payload.
pub open spec fn spec_blank() -> Seq<u8> {
    seq![13u8, 10u8, 13u8, 10u8]
}

/// The regions between occurrences of the opening marker, the text
/// before the first occurrence first.  A region that is empty, or is
/// exactly the two dashes left of the closing marker, carries no
/// section and is dropped.
pub open spec fn spec_kept_parts(data: Seq<u8>, marker: Seq<u8>) -> Seq<Seq<u8>>
    decreases data.len(),
{
    let last = if data.len() > 0 && data != seq![45u8, 45u8] {
        seq![data]
    } else {
        Seq::<Seq<u8>>::empty()
    };
    match spec_find_pat(data, marker) {
        Some(i) => {
            if 0 <= i && 1 <= marker.len() && i + marker.len() <= data.len() {
                let part = data.subrange(0, i);
                let rest = spec_kept_parts(data.skip(i + marker.len()), marker);
                if part.len() > 0 && part != seq![45u8, 45u8] {
                    seq![part] + rest
                } else {
                    rest
                }
            } else {
                last
            }
        },
        None => last,
    }
}

/// Where a part's payload ends: a trailing closing marker is cut, then
/// a trailing line terminator.
pub open spec fn spec_part_body_end(part: Seq<u8>, fin: Seq<u8>) -> int {
    let e1: int = if part.len() >= fin.len() && part.skip(part.len() - fin.len()) == fin {
        part.len() - fin.len()
    } else {
        part.len() as int
    };
    if e1 >= 2 && part[e1 - 1] == 10 && part[e1 - 2] == 13 {
        e1 - 2
    } else {
        e1
    }
}

/// Where a part splits: the header lines end at the first blank line
/// and the payload starts after it, when that falls inside the payload
/// region; otherwise everything up to the payload end is header lines
/// and the payload is empty.
pub open spec fn spec_part_split(part: Seq<u8>, fin: Seq<u8>) -> (int, int) {
    let be = spec_part_body_end(part, fin);
    match spec_find_pat(part, spec_blank()) {
        Some(p) => if p + 4 <= be {
            (p, p + 4)
        } else {
            (be, be)
        },
        None => (be, be),
    }
}

/// The exact parse of one part: the headers are the lines before the
/// split, one per line, and the payload is the bytes after it up to
/// the cut end.
pub open spec fn spec_section_exact(part: Seq<u8>, fin: Seq<u8>, s: FormDataSection) -> bool {
    &&& spec_headers_exact(part.subrange(0, spec_part_split(part, fin).0), s.headers@)
    &&& s.data@ == part.subrange(spec_part_split(part, fin).1, spec_part_body_end(part, fin))
}

/// Some header line of the part is malformed.
pub open spec fn spec_part_bad(part: Seq<u8>, fin: Seq<u8>) -> bool {
    spec_region_has_bad_line(part.subrange(0, spec_part_split(part, fin).0))
}

/// The exact relation between a multipart body and its parse against a
/// boundary: one section per kept part, each exact, and failure exactly
/// when some kept part has a malformed header line.
pub open spec fn spec_formdata_parse_rel(
    bchars: Seq<char>,
    data: Seq<u8>,
    r: Result<FormData, ParseHttpError>,
) -> bool {
    match r {
        Ok(f) => {
            &&& f.boundary@ == bchars
            &&& f.sections@.len() == spec_kept_parts(data, spec_marker(bchars)).len()
            &&& forall|s: int|
                0 <= s < f.sections@.len() ==> spec_section_exact(
                    spec_kept_parts(data, spec_marker(bchars))[s],
                    spec_final_marker(bchars),
                    #[trigger] f.sections@[s],
                )
        },
        Err(e) => {
            &&& e matches ParseHttpError::ParseHeaderError(_)
            &&& exists|s: int|
                0 <= s < spec_kept_parts(data, spec_marker(bchars)).len() && spec_part_bad(
                    #[trigger] spec_kept_parts(data, spec_marker(bchars))[s],
                    spec_final_marker(bchars),
                )
        },
    }
}

impl FormData {
    /// The serialized multipart body.
    pub open spec fn spec_wire(self) -> Seq<u8> {
        spec_sections_wire(self.boundary@, self.sections@) + spec_final_marker(self.boundary@)
    }

    pub fn new(sections: Vec<FormDataSection>, boundary: String) -> (r: Result<
        FormData,
        ParseHttpError,
    >)
        ensures
            r matches Ok(f) && f.boundary@ == boundary@ && f.sections@ == sections@,
    {
        Ok(FormData { boundary, sections })
    }

    /// Serializes the multipart body as bytes.
    pub fn encode_bytes(&self) -> (r: Vec<u8>)
        ensures
            r@ =~= self.spec_wire(),
    {
        let mut out: Vec<u8> = Vec::new();
        let bb = self.boundary.as_str().as_bytes_vec();
        let mut k: usize = 0;
        proof {
            assert(self.sections@.subrange(0, 0) =~= Seq::<FormDataSection>::empty());
        }
        while k < self.sections.len()
            invariant
                k <= self.sections@.len(),
                bb@ == encode_utf8(self.boundary@),
                out@ =~= spec_sections_wire(self.boundary@, self.sections@.subrange(0, k as int)),
            decreases self.sections@.len() - k,
        {
            out.push(45);
            out.push(45);
            let mut b1 = copy_range(bb.as_slice(), 0, bb.len());
            proof {
                assert(b1@ =~= bb@);
            }
            out.append(&mut b1);
            out.push(13);
            out.push(10);
            let mut sb = self.sections[k].encode();
            out.append(&mut sb);
            out.push(13);
            out.push(10);
            proof {
                let sub1 = self.sections@.subrange(0, k + 1);
                assert(sub1.drop_last() =~= self.sections@.subrange(0, k as int));
                assert(sub1.last() == self.sections@[k as int]);
                assert(out@ =~= spec_sections_wire(self.boundary@, sub1));
            }
            k = k + 1;
        }
        proof {
            assert(self.sections@.subrange(0, self.sections@.len() as int) =~= self.sections@);
        }
        out.push(45);
        out.push(45);
        let mut b2 = copy_range(bb.as_slice(), 0, bb.len());
        proof {
            assert(b2@ =~= bb@);
        }
        out.append(&mut b2);
        out.push(45);
        out.push(45);
        proof {
            assert(out@ =~= self.spec_wire());
        }
        out
    }

    /// Serializes the multipart body as text; fails when a section holds
    /// bytes that are not UTF-8.
    pub fn encode(&self) -> (r: Result<String, ParseHttpError>)
        ensures
            match r {
                Ok(s) => valid_utf8(self.spec_wire()) && s@ == decode_utf8(self.spec_wire()),
                Err(e) => !valid_utf8(self.spec_wire()) && e matches
                    ParseHttpError::ParseFormDataError(_),
            },
    {
        let bytes = self.encode_bytes();
        match utf8_to_string(bytes) {
            Some(s) => Ok(s),
            None => Err(
                ParseHttpError::ParseFormDataError(String::from_str("body is not UTF-8")),
            ),
        }
    }

    /// The serialized body, or a description of the fault.
    pub fn to_string(&self) -> (r: String) {
        match self.encode() {
            Ok(s) => s,
            Err(e) => e.to_string(),
        }
    }

    /// Parses a multipart body against a known boundary.
    ///
    /// Occurrences of the opening marker delimit the parts named by
    /// `spec_kept_parts`; each becomes one section, split at its first
    /// blank line into header lines and a payload, the payload losing a
    /// trailing closing marker and line terminator.  Fails exactly when
    /// some part has a malformed header line.
    #[verifier::rlimit(100)]
    pub fn parse(boundary: String, raw_data: Vec<u8>) -> (r: Result<FormData, ParseHttpError>)
        ensures
            spec_formdata_parse_rel(boundary@, raw_data@, r),
    {
        let bb = boundary.as_str().as_bytes_vec();
        let mut marker: Vec<u8> = Vec::new();
        marker.push(45);
        marker.push(45);
        let mut b1 = copy_range(bb.as_slice(), 0, bb.len());
        marker.append(&mut b1);
        marker.push(13);
        marker.push(10);
        let mut fin: Vec<u8> = Vec::new();
        fin.push(45);
        fin.push(45);
        let mut b2 = copy_range(bb.as_slice(), 0, bb.len());
        fin.append(&mut b2);
        fin.push(45);
        fin.push(45);
        let ghost mspec = spec_marker(boundary@);
        let ghost fspec = spec_final_marker(boundary@);
        let ghost all_parts = spec_kept_parts(raw_data@, mspec);
        proof {
            assert(marker@ =~= mspec);
            assert(fin@ =~= fspec);
        }
        let mut sections: Vec<FormDataSection> = Vec::new();
        let ghost mut done: Seq<Seq<u8>> = Seq::empty();
        let mut start: usize = 0;
        let n = raw_data.len();
        proof {
            assert(raw_data@.skip(0) =~= raw_data@);
            assert(all_parts =~= done + spec_kept_parts(raw_data@.skip(0), mspec));
        }
        let mut more = true;
        while more
            invariant
                start <= n,
                n == raw_data@.len(),
                marker@ == mspec,
                fin@ == fspec,
                marker@.len() >= 4,
                all_parts == spec_kept_parts(raw_data@, mspec),
                more ==> all_parts =~= done + spec_kept_parts(
                    raw_data@.skip(start as int),
                    mspec,
                ),
                !more ==> all_parts =~= done,
                sections@.len() == done.len(),
                forall|s: int|
                    0 <= s < done.len() ==> spec_section_exact(
                        done[s],
                        fspec,
                        #[trigger] sections@[s],
                    ),
            decreases n - start + (if more {
                1int
            } else {
                0int
            }),
        {
            let ghost sfx = raw_data@.skip(start as int);
            let next = find_from(raw_data.as_slice(), start, marker.as_slice());
            let (part_hi, found): (usize, bool) = match next {
                Some(i) => (i, true),
                None => (n, false),
            };
            proof {
                assert forall|j: int| 0 <= j implies match_at(sfx, j, mspec) == match_at(
                    raw_data@,
                    start + j,
                    mspec,
                ) by {
                    crate::wire::lemma_match_at_shift(raw_data@, start as int, j, mspec);
                }
                if found {
                    assert(match_at(sfx, part_hi - start, mspec));
                    crate::wire::lemma_find_pat_unique(sfx, mspec, part_hi - start);
                } else {
                    assert forall|j: int| !match_at(sfx, j, mspec) by {
                        if j >= 0 {
                            assert(!match_at(raw_data@, start + j, mspec));
                        }
                    }
                    crate::wire::lemma_find_pat_none(sfx, mspec);
                }
            }
            let part = copy_range(raw_data.as_slice(), start, part_hi);
            proof {
                assert(part@ =~= sfx.subrange(0, part_hi - start));
                if !found {
                    assert(part@ =~= sfx);
                }
            }
            let dd: [u8; 2] = [45, 45];
            let kept = part.len() > 0 && !crate::wire::eq_bytes(part.as_slice(), &dd);
            proof {
                assert(dd@ =~= seq![45u8, 45u8]);
            }
            if kept {
                let section = match parse_part(part.as_slice(), fin.as_slice()) {
                    Ok(s) => s,
                    Err(e) => {
                        proof {
                            assert(all_parts[done.len() as int] == part@);
                        }
                        return Err(e);
                    },
                };
                sections.push(section);
                proof {
                    done = done.push(part@);
                }
            }
            if found {
                let skip_to = part_hi + marker.len();
                proof {
                    assert(sfx.skip(part_hi - start + mspec.len() as int) =~= raw_data@.skip(
                        skip_to as int,
                    ));
                    if kept {
                        assert(spec_kept_parts(sfx, mspec) =~= seq![part@] + spec_kept_parts(
                            raw_data@.skip(skip_to as int),
                            mspec,
                        ));
                    } else {
                        assert(spec_kept_parts(sfx, mspec) =~= spec_kept_parts(
                            raw_data@.skip(skip_to as int),
                            mspec,
                        ));
                    }
                    assert(all_parts =~= done + spec_kept_parts(
                        raw_data@.skip(skip_to as int),
                        mspec,
                    ));
                }
                start = skip_to;
            } else {
                proof {
                    if kept {
                        assert(spec_kept_parts(sfx, mspec) =~= seq![part@]);
                        assert(done =~= done.drop_last().push(part@));
                    } else {
                        assert(spec_kept_parts(sfx, mspec) =~= Seq::<Seq<u8>>::empty());
                    }
                    assert(all_parts =~= done);
                }
                more = false;
            }
        }
        Ok(FormData { boundary, sections })
    }
}

/// Parses one part between markers into a section: the payload loses a
/// trailing closing marker and line terminator, the rest splits at the
/// first blank line into header lines and payload.  Fails exactly when
/// a header line of the part is malformed.
#[verifier::rlimit(100)]
fn parse_part(part: &[u8], fin: &[u8]) -> (r: Result<FormDataSection, ParseHttpError>)
    ensures
        match r {
            Ok(s) => spec_section_exact(part@, fin@, s),
            Err(e) => {
                &&& e matches ParseHttpError::ParseHeaderError(_)
                &&& spec_part_bad(part@, fin@)
            },
        },
{
    // cut a trailing closing marker, then a trailing line terminator,
    // off the payload region
    let mut body_end = part.len();
    if body_end >= fin.len() {
        let tail = copy_range(part, body_end - fin.len(), body_end);
        proof {
            assert(tail@ =~= part@.skip(part@.len() - fin@.len()));
        }
        if crate::wire::eq_bytes(tail.as_slice(), fin) {
            body_end = body_end - fin.len();
        }
    }
    if body_end >= 2 && part[body_end - 1] == 10 && part[body_end - 2] == 13 {
        body_end = body_end - 2;
    }
    proof {
        assert(body_end as int == spec_part_body_end(part@, fin@));
    }
    // split at the first blank line
    let blank4: [u8; 4] = [13, 10, 13, 10];
    let sep = find_from(part, 0, &blank4);
    let (hdr_end, body_lo): (usize, usize) = match sep {
        Some(p) => {
            proof {
                assert(blank4@ =~= spec_blank());
                crate::wire::lemma_find_pat_unique(part@, spec_blank(), p as int);
            }
            if p + 4 <= body_end {
                (p, p + 4)
            } else {
                (body_end, body_end)
            }
        },
        None => {
            proof {
                assert(blank4@ =~= spec_blank());
                crate::wire::lemma_find_pat_none(part@, spec_blank());
            }
            (body_end, body_end)
        },
    };
    proof {
        assert(hdr_end as int == spec_part_split(part@, fin@).0);
        assert(body_lo as int == spec_part_split(part@, fin@).1);
    }
    let hreg = copy_range(part, 0, hdr_end);
    proof {
        assert(hreg@ =~= part@.subrange(0, hdr_end as int));
    }
    let headers = match parse_header_region(hreg.as_slice()) {
        Ok(hs) => hs,
        Err(_) => {
            proof {
                assert(spec_part_bad(part@, fin@));
            }
            return Err(
                ParseHttpError::ParseHeaderError(String::from_str("Invalid formdata header")),
            );
        },
    };
    let data = copy_range(part, body_lo, body_end);
    let section = FormDataSection { headers, data };
    proof {
        assert(spec_section_exact(part@, fin@, section));
    }
    Ok(section)
}

/// An HTTP/1.1 message body.
#[derive(Debug, Clone)]
pub enum Body {
    Data(Vec<u8>),
    FormData(FormData),
    Empty,
}

impl Body {
    /// The serialized body bytes.
    pub open spec fn spec_wire(self) -> Seq<u8> {
        match self {
            Body::Data(d) => d@,
            Body::FormData(f) => f.spec_wire(),
            Body::Empty => Seq::empty(),
        }
    }

    /// Serializes the body.
    pub fn encode(&self) -> (r: Vec<u8>)
        ensures
            r@ =~= self.spec_wire(),
    {
        match self {
            Body::Data(d) => {
                let r = copy_range(d.as_slice(), 0, d.len());
                proof {
                    assert(r@ =~= d@);
                }
                r
            },
            Body::FormData(f) => f.encode_bytes(),
            Body::Empty => Vec::new(),
        }
    }

    /// Reinterprets the body as multipart content; raw bytes are parsed
    /// with the boundary taken from the first line, which carries it as
    /// `--<boundary>\r\n`.  Raw bytes without a line terminator, or with
    /// a first line shorter than the two dashes, have no boundary; a
    /// boundary that is not UTF-8 cannot be kept; anything else parses
    /// as `FormData::parse` does.
    pub fn as_formdata(self) -> (r: Result<FormData, ParseHttpError>)
        ensures
            self matches Body::Empty ==> r matches Err(e) && e matches
                ParseHttpError::ParseFormDataError(_),
            self matches Body::FormData(f) ==> r == Ok::<FormData, ParseHttpError>(f),
            self matches Body::Data(v) ==> match spec_find_pat(v@, spec_crlf()) {
                None => r == Err::<FormData, ParseHttpError>(
                    ParseHttpError::FormdataBoundaryNotFound,
                ),
                Some(i) => {
                    if i < 2 {
                        r == Err::<FormData, ParseHttpError>(
                            ParseHttpError::FormdataBoundaryNotFound,
                        )
                    } else if !valid_utf8(v@.subrange(2, i)) {
                        r matches Err(e) && e matches ParseHttpError::ParseFormDataError(_)
                    } else {
                        spec_formdata_parse_rel(decode_utf8(v@.subrange(2, i)), v@, r)
                    }
                },
            },
    {
        match self {
            Body::Data(bytes) => {
                let crlf2: [u8; 2] = [13, 10];
                let eol = find_from(bytes.as_slice(), 0, &crlf2);
                let first_end = match eol {
                    Some(i) => {
                        proof {
                            assert(crlf2@ =~= spec_crlf());
                            crate::wire::lemma_find_pat_unique(bytes@, spec_crlf(), i as int);
                        }
                        i
                    },
                    None => {
                        proof {
                            assert(crlf2@ =~= spec_crlf());
                            crate::wire::lemma_find_pat_none(bytes@, spec_crlf());
                        }
                        return Err(ParseHttpError::FormdataBoundaryNotFound);
                    },
                };
                if first_end < 2 {
                    return Err(ParseHttpError::FormdataBoundaryNotFound);
                }
                let bslice = copy_range(bytes.as_slice(), 2, first_end);
                proof {
                    assert(bslice@ =~= bytes@.subrange(2, first_end as int));
                }
                let bstr = match utf8_to_string(bslice) {
                    Some(s) => s,
                    None => {
                        return Err(
                            ParseHttpError::ParseFormDataError(
                                String::from_str("boundary is not UTF-8"),
                            ),
                        );
                    },
                };
                match FormData::parse(bstr, bytes) {
                    Ok(f) => Ok(f),
                    Err(e) => Err(e),
                }
            },
            Body::FormData(f) => Ok(f),
            Body::Empty => Err(
                ParseHttpError::ParseFormDataError(String::from_str("Empty Body")),
            ),
        }
    }
}

} // verus!
