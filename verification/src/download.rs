//! The resumable-download bookkeeping: the staging name derived from the
//! episode's guid, the resume offset and byte-range request, the running
//! count of bytes on disk while a response body streams, and the extension
//! inferred from the declared content type.

use vstd::prelude::*;

use crate::text::{
    chars_to_string, dec_rep, find_from, find_in_chars, lemma_find_from_props, str_eq_str,
    str_to_chars, u64_to_dec_chars,
};

verus! {

/// A terminal per-episode download fault.
#[derive(Debug, Clone, PartialEq, Eq)]
pub enum DownloadError {
    /// The response carried no usable length for the requested range.
    MissingLength,
    /// The stream delivered more bytes than the response declared.
    LengthExceeded,
    /// The network or the local file failed mid-transfer.
    Stream,
}

/// The in-progress marker suffix of a staging file.
pub open spec fn staging_suffix() -> Seq<char> {
    ".partial"@
}

/// The staging name of an episode: its guid with the in-progress marker.
pub open spec fn staging_name_spec(guid: Seq<char>) -> Seq<char> {
    guid.add(staging_suffix())
}

/// Derives the staging name, as `staging_name_spec` describes.
pub fn staging_name(guid: &str) -> (r: String)
    ensures
        r@ == staging_name_spec(guid@),
{
    let mut out = str_to_chars(guid);
    let suffix = str_to_chars(".partial");
    let ghost base = out@;
    let mut k: usize = 0;
    while k < suffix.len()
        invariant
            k <= suffix@.len(),
            out@ == base.add(suffix@.take(k as int)),
        decreases suffix@.len() - k,
    {
        let c = suffix[k];
        out.push(c);
        k = k + 1;
        proof {
            assert(out@ =~= base.add(suffix@.take(k as int)));
        }
    }
    proof {
        assert(suffix@.take(suffix@.len() as int) =~= suffix@);
    }
    chars_to_string(out.as_slice())
}

/// The byte-range request line for a resume offset: open-ended from the
/// offset, and no request at all for a fresh download.
pub open spec fn range_header_spec(offset: int) -> Option<Seq<char>> {
    if offset > 0 {
        Some("bytes="@.add(dec_rep(offset)).add("-"@))
    } else {
        None
    }
}

/// Renders the byte-range request for a resume offset, as
/// `range_header_spec` describes: with a staging file of length `offset`
/// the request asks for exactly the bytes from `offset` to the end.
pub fn range_header(offset: u64) -> (r: Option<String>)
    ensures
        match r {
            Some(s) => range_header_spec(offset as int) == Some(s@),
            None => offset == 0 && range_header_spec(offset as int) is None,
        },
{
    if offset == 0 {
        return None;
    }
    let mut out = str_to_chars("bytes=");
    let digits = u64_to_dec_chars(offset);
    let ghost base = out@;
    let mut k: usize = 0;
    while k < digits.len()
        invariant
            k <= digits@.len(),
            out@ == base.add(digits@.take(k as int)),
        decreases digits@.len() - k,
    {
        let c = digits[k];
        out.push(c);
        k = k + 1;
        proof {
            assert(out@ =~= base.add(digits@.take(k as int)));
        }
    }
    out.push('-');
    proof {
        reveal_strlit("-");
        assert(digits@.take(digits@.len() as int) =~= digits@);
        assert(out@ =~= "bytes="@.add(dec_rep(offset as int)).add("-"@));
    }
    Some(chars_to_string(out.as_slice()))
}

/// One streaming transfer: how many bytes the staging file holds, and how
/// many it must hold when the stream completes.
pub struct Transfer {
    pub written: u64,
    pub expected: u64,
}

impl Transfer {
    /// Opens the transfer of one response: the staging file already holds
    /// `resume_from` bytes, and the ranged response declares `remaining`
    /// more, so the complete object is their sum.
    pub fn begin(resume_from: u64, remaining: u64) -> (t: Transfer)
        requires
            resume_from + remaining <= u64::MAX,
        ensures
            t.written == resume_from,
            t.expected == resume_from + remaining,
    {
        Transfer { written: resume_from, expected: resume_from + remaining }
    }

    /// Accounts one chunk appended to the staging file, in stream order;
    /// a chunk running past the declared length is a terminal fault.
    pub fn apply_chunk(&mut self, n: u64) -> (r: Result<(), DownloadError>)
        ensures
            match r {
                Ok(()) => final(self).written == old(self).written + n && final(self).expected
                    == old(self).expected && final(self).written <= final(self).expected,
                Err(e) => e == DownloadError::LengthExceeded && *final(self) == *old(self)
                    && old(self).written + n > old(self).expected,
            },
    {
        if self.written > self.expected || n > self.expected - self.written {
            return Err(DownloadError::LengthExceeded);
        }
        self.written = self.written + n;
        Ok(())
    }

    /// Whether the staging file holds the complete object.
    pub fn is_complete(&self) -> (r: bool)
        ensures
            r == (self.written == self.expected),
    {
        self.written == self.expected
    }
}

/// The sum of a chunk sequence.
pub open spec fn sum_chunks(chunks: Seq<int>) -> int
    decreases chunks.len(),
{
    if chunks.len() == 0 {
        0
    } else {
        chunks[0] + sum_chunks(chunks.skip(1))
    }
}

/// The byte count a transfer reaches after a chunk sequence.
pub open spec fn written_after(w: int, chunks: Seq<int>) -> int
    decreases chunks.len(),
{
    if chunks.len() == 0 {
        w
    } else {
        written_after(w + chunks[0], chunks.skip(1))
    }
}

/// Resume correctness: with a staging file of length `l` and a remote
/// object of length `n > l`, the engine requests exactly the bytes from `l`
/// to the end — `range_header_spec(l)` carries offset `l` — and after
/// streaming chunks totalling the requested `n - l` bytes the staging file
/// holds exactly `n` bytes: the transfer is complete.
pub proof fn lemma_resume_correctness(l: int, n: int, chunks: Seq<int>)
    requires
        1 <= l < n,
        sum_chunks(chunks) == n - l,
    ensures
        range_header_spec(l) == Some("bytes="@.add(dec_rep(l)).add("-"@)),
        written_after(l, chunks) == n,
{
    lemma_written_after_sum(l, chunks);
}

/// Streaming adds exactly the chunk sum to the starting count.
proof fn lemma_written_after_sum(w: int, chunks: Seq<int>)
    ensures
        written_after(w, chunks) == w + sum_chunks(chunks),
    decreases chunks.len(),
{
    if chunks.len() > 0 {
        lemma_written_after_sum(w + chunks[0], chunks.skip(1));
    }
}

/// The extension inferred from a declared content type, its parameters
/// stripped: the canonical audio extension of each known audio type, and
/// the common audio default for anything unknown.
pub open spec fn extension_for(ct: Seq<char>) -> Seq<char> {
    let bare = ct.take(find_from(ct, 0, ';'));
    if bare == "audio/mpeg"@ || bare == "audio/mp3"@ {
        "mp3"@
    } else if bare == "audio/mp4"@ || bare == "audio/x-m4a"@ {
        "m4a"@
    } else if bare == "audio/ogg"@ || bare == "application/ogg"@ {
        "ogg"@
    } else if bare == "audio/opus"@ {
        "opus"@
    } else if bare == "audio/wav"@ || bare == "audio/x-wav"@ {
        "wav"@
    } else if bare == "audio/aac"@ {
        "aac"@
    } else if bare == "audio/flac"@ {
        "flac"@
    } else if bare == "video/mp4"@ {
        "mp4"@
    } else {
        "mp3"@
    }
}

/// Infers the extension of a declared content type, as `extension_for`
/// describes.
pub fn content_type_extension(ct: &str) -> (r: String)
    ensures
        r@ == extension_for(ct@),
{
    let cs = str_to_chars(ct);
    proof {
        lemma_find_from_props(cs@, 0, ';');
    }
    let cut = find_in_chars(&cs, 0, ';');
    let mut bare: Vec<char> = Vec::new();
    let mut i: usize = 0;
    while i < cut
        invariant
            i <= cut <= cs@.len(),
            bare@ == cs@.take(i as int),
        decreases cut - i,
    {
        let c = cs[i];
        bare.push(c);
        i = i + 1;
        proof {
            assert(bare@ =~= cs@.take(i as int));
        }
    }
    let s = if str_eq_str(chars_to_string(bare.as_slice()).as_str(), "audio/mpeg")
        || str_eq_str(chars_to_string(bare.as_slice()).as_str(), "audio/mp3") {
        "mp3"
    } else if str_eq_str(chars_to_string(bare.as_slice()).as_str(), "audio/mp4") || str_eq_str(
        chars_to_string(bare.as_slice()).as_str(),
        "audio/x-m4a",
    ) {
        "m4a"
    } else if str_eq_str(chars_to_string(bare.as_slice()).as_str(), "audio/ogg") || str_eq_str(
        chars_to_string(bare.as_slice()).as_str(),
        "application/ogg",
    ) {
        "ogg"
    } else if str_eq_str(chars_to_string(bare.as_slice()).as_str(), "audio/opus") {
        "opus"
    } else if str_eq_str(chars_to_string(bare.as_slice()).as_str(), "audio/wav") || str_eq_str(
        chars_to_string(bare.as_slice()).as_str(),
        "audio/x-wav",
    ) {
        "wav"
    } else if str_eq_str(chars_to_string(bare.as_slice()).as_str(), "audio/aac") {
        "aac"
    } else if str_eq_str(chars_to_string(bare.as_slice()).as_str(), "audio/flac") {
        "flac"
    } else if str_eq_str(chars_to_string(bare.as_slice()).as_str(), "video/mp4") {
        "mp4"
    } else {
        "mp3"
    };
    chars_to_string(str_to_chars(s).as_slice())
}

/// The staged name an episode carries once its stream completed: the guid
/// with the inferred extension, in place of the in-progress marker.
pub open spec fn staged_final_name_spec(guid: Seq<char>, ext: Seq<char>) -> Seq<char> {
    guid.add("."@).add(ext)
}

/// Builds the staged name with the inferred extension, as
/// `staged_final_name_spec` describes.
pub fn staged_final_name(guid: &str, ext: &str) -> (r: String)
    ensures
        r@ == staged_final_name_spec(guid@, ext@),
{
    let mut out = str_to_chars(guid);
    out.push('.');
    let tail = str_to_chars(ext);
    let ghost base = out@;
    let mut k: usize = 0;
    while k < tail.len()
        invariant
            k <= tail@.len(),
            out@ == base.add(tail@.take(k as int)),
        decreases tail@.len() - k,
    {
        let c = tail[k];
        out.push(c);
        k = k + 1;
        proof {
            assert(out@ =~= base.add(tail@.take(k as int)));
        }
    }
    proof {
        reveal_strlit(".");
        assert(tail@.take(tail@.len() as int) =~= tail@);
        assert(out@ =~= staged_final_name_spec(guid@, ext@));
    }
    chars_to_string(out.as_slice())
}

} // verus!
