//! The per-subscription completion ledger: an append-only, line-oriented
//! record of already-downloaded episode ids. Each line carries an id, a
//! completion timestamp and a title; only the presence of an id matters.
//! Malformed lines and an unterminated trailing fragment (a partial write
//! interrupted mid-line) are tolerated and ignored.

use vstd::prelude::*;

use crate::text::{
    chars_to_string, dec_rep_signed, find_from, find_in_chars, i64_to_dec_chars,
    lemma_find_from_props, str_eq_str, str_to_chars,
};

verus! {

/// The id carried by one ledger line: the text before the first space. A
/// line without a space, or with nothing before it, is malformed and carries
/// no id.
pub open spec fn line_id(line: Seq<char>) -> Option<Seq<char>> {
    let sp = find_from(line, 0, ' ');
    if 0 < sp < line.len() {
        Some(line.take(sp))
    } else {
        None
    }
}

/// The ids of the newline-terminated lines of the ledger text from position
/// `i` on, in file order; an unterminated trailing fragment carries none.
pub open spec fn ids_from(t: Seq<char>, i: int) -> Seq<Seq<char>>
    decreases t.len() - i,
    via ids_from_decreases
{
    if i < 0 || i >= t.len() {
        Seq::empty()
    } else {
        let j = find_from(t, i, '\n');
        if j >= t.len() {
            Seq::empty()
        } else {
            match line_id(t.subrange(i, j)) {
                Some(id) => seq![id].add(ids_from(t, j + 1)),
                None => ids_from(t, j + 1),
            }
        }
    }
}

#[via_fn]
proof fn ids_from_decreases(t: Seq<char>, i: int) {
    if 0 <= i < t.len() {
        lemma_find_from_props(t, i, '\n');
    }
}

/// All ids recorded in a ledger text, duplicates kept in order.
pub open spec fn ledger_text_ids(t: Seq<char>) -> Seq<Seq<char>> {
    ids_from(t, 0)
}

/// One well-formed ledger line: the id, the completion timestamp and the
/// quoted title, newline-terminated.
pub open spec fn ledger_line_spec(id: Seq<char>, timestamp: int, title: Seq<char>) -> Seq<char> {
    id.add(" "@).add(dec_rep_signed(timestamp)).add(" \""@).add(title).add("\"\n"@)
}

/// A computed ledger id made safe for the line format: spaces and newlines
/// become underscores, and an empty result becomes a lone underscore, so
/// the id always occupies the line's first field.
pub open spec fn sanitize_id_spec(s: Seq<char>) -> Seq<char> {
    if s.len() == 0 {
        seq!['_']
    } else {
        s.map_values(
            |c: char|
                if c == ' ' || c == '\n' {
                    '_'
                } else {
                    c
                },
        )
    }
}

/// A title made safe for the line format: newlines become spaces.
pub open spec fn sanitize_title_spec(s: Seq<char>) -> Seq<char> {
    s.map_values(
        |c: char|
            if c == '\n' {
                ' '
            } else {
                c
            },
    )
}

/// Sanitized fields always satisfy the line format's well-formedness, so an
/// appended line parses back to exactly its id.
pub proof fn lemma_sanitized_fields_wf(id: Seq<char>, title: Seq<char>)
    ensures
        line_fields_wf(sanitize_id_spec(id), sanitize_title_spec(title)),
{
    assert forall|j: int| 0 <= j < sanitize_id_spec(id).len() implies (
    #[trigger] sanitize_id_spec(id)[j]) != ' ' && sanitize_id_spec(id)[j] != '\n' by {
        if id.len() > 0 {
            assert(sanitize_id_spec(id)[j] == (if id[j] == ' ' || id[j] == '\n' {
                '_'
            } else {
                id[j]
            }));
        }
    }
    assert forall|j: int| 0 <= j < sanitize_title_spec(title).len() implies (
    #[trigger] sanitize_title_spec(title)[j]) != '\n' by {
        assert(sanitize_title_spec(title)[j] == (if title[j] == '\n' {
            ' '
        } else {
            title[j]
        }));
    }
}

/// Sanitizes a computed ledger id, as `sanitize_id_spec` describes.
pub fn sanitize_id(s: &str) -> (r: String)
    ensures
        r@ == sanitize_id_spec(s@),
{
    let cs = str_to_chars(s);
    if cs.len() == 0 {
        let mut one: Vec<char> = Vec::new();
        one.push('_');
        proof {
            assert(one@ =~= sanitize_id_spec(s@));
        }
        return chars_to_string(one.as_slice());
    }
    let mut out: Vec<char> = Vec::new();
    let mut i: usize = 0;
    while i < cs.len()
        invariant
            cs@ == s@,
            cs@.len() > 0,
            i <= cs@.len(),
            out@ == sanitize_id_spec(s@).take(i as int),
        decreases cs@.len() - i,
    {
        let c = cs[i];
        if c == ' ' || c == '\n' {
            out.push('_');
        } else {
            out.push(c);
        }
        i = i + 1;
        proof {
            assert(out@ =~= sanitize_id_spec(s@).take(i as int));
        }
    }
    proof {
        assert(sanitize_id_spec(s@).take(cs@.len() as int) =~= sanitize_id_spec(s@));
    }
    chars_to_string(out.as_slice())
}

/// Sanitizes a title, as `sanitize_title_spec` describes.
pub fn sanitize_title(s: &str) -> (r: String)
    ensures
        r@ == sanitize_title_spec(s@),
{
    let cs = str_to_chars(s);
    let mut out: Vec<char> = Vec::new();
    let mut i: usize = 0;
    while i < cs.len()
        invariant
            cs@ == s@,
            i <= cs@.len(),
            out@ == sanitize_title_spec(s@).take(i as int),
        decreases cs@.len() - i,
    {
        let c = cs[i];
        if c == '\n' {
            out.push(' ');
        } else {
            out.push(c);
        }
        i = i + 1;
        proof {
            assert(out@ =~= sanitize_title_spec(s@).take(i as int));
        }
    }
    proof {
        assert(sanitize_title_spec(s@).take(cs@.len() as int) =~= sanitize_title_spec(s@));
    }
    chars_to_string(out.as_slice())
}

/// The in-memory completion ledger: the ids read from the ledger file, in
/// file order, duplicates kept. Membership alone is meaningful, and ids are
/// only ever appended.
pub struct Ledger {
    pub ids: Vec<String>,
}

impl Ledger {
    /// Whether `id` has been recorded.
    pub open spec fn contains_id(self, id: Seq<char>) -> bool {
        exists|i: int| 0 <= i < self.ids@.len() && (#[trigger] self.ids@[i])@ == id
    }

    /// An empty ledger: nothing has been downloaded yet.
    pub fn new() -> (r: Ledger)
        ensures
            r.ids@.len() == 0,
            forall|id: Seq<char>| !r.contains_id(id),
    {
        Ledger { ids: Vec::new() }
    }

    /// Parses a ledger file's text, collecting the id of every
    /// newline-terminated line that carries one.
    pub fn from_text(text: &str) -> (r: Ledger)
        ensures
            r.ids@.map_values(|s: String| s@) == ledger_text_ids(text@),
    {
        let cs = str_to_chars(text);
        let mut ids: Vec<String> = Vec::new();
        let mut i: usize = 0;
        proof {
            assert(ledger_text_ids(text@) =~= ids@.map_values(|s: String| s@).add(
                ids_from(cs@, 0),
            ));
        }
        while i < cs.len()
            invariant
                cs@ == text@,
                i <= cs@.len(),
                ledger_text_ids(text@) == ids@.map_values(|s: String| s@).add(
                    ids_from(cs@, i as int),
                ),
            decreases cs@.len() - i,
        {
            proof {
                lemma_find_from_props(cs@, i as int, '\n');
            }
            let j = find_in_chars(&cs, i, '\n');
            if j >= cs.len() {
                proof {
                    assert(ids_from(cs@, i as int) =~= Seq::<Seq<char>>::empty());
                    assert(ids@.map_values(|s: String| s@).add(ids_from(cs@, i as int))
                        =~= ids@.map_values(|s: String| s@).add(ids_from(cs@, cs@.len() as int)));
                }
                i = cs.len();
            } else {
                let mut line: Vec<char> = Vec::new();
                let mut k: usize = i;
                while k < j
                    invariant
                        i <= k <= j <= cs@.len(),
                        line@ == cs@.subrange(i as int, k as int),
                    decreases j - k,
                {
                    line.push(cs[k]);
                    k = k + 1;
                    proof {
                        assert(line@ =~= cs@.subrange(i as int, k as int));
                    }
                }
                let sp = find_in_chars(&line, 0, ' ');
                let ghost pre = ids@;
                if 0 < sp && sp < line.len() {
                    let mut idchars: Vec<char> = Vec::new();
                    let mut k2: usize = 0;
                    while k2 < sp
                        invariant
                            k2 <= sp <= line@.len(),
                            idchars@ == line@.take(k2 as int),
                        decreases sp - k2,
                    {
                        idchars.push(line[k2]);
                        k2 = k2 + 1;
                        proof {
                            assert(idchars@ =~= line@.take(k2 as int));
                        }
                    }
                    let id = chars_to_string(idchars.as_slice());
                    ids.push(id);
                    proof {
                        assert(line_id(cs@.subrange(i as int, j as int)) == Some(
                            line@.take(sp as int),
                        ));
                        assert(ids@.map_values(|s: String| s@) =~= pre.map_values(
                            |s: String| s@,
                        ).push(line@.take(sp as int)));
                        assert(seq![line@.take(sp as int)].add(ids_from(cs@, j + 1)) =~= ids_from(
                            cs@,
                            i as int,
                        ));
                        assert(ledger_text_ids(text@) =~= ids@.map_values(|s: String| s@).add(
                            ids_from(cs@, j + 1),
                        ));
                    }
                } else {
                    proof {
                        assert(line_id(cs@.subrange(i as int, j as int)) is None);
                        assert(ids_from(cs@, i as int) =~= ids_from(cs@, j + 1));
                    }
                }
                i = j + 1;
            }
        }
        proof {
            assert(ids_from(cs@, i as int) =~= Seq::<Seq<char>>::empty());
            assert(ids@.map_values(|s: String| s@).add(Seq::<Seq<char>>::empty()) =~= ids@
                .map_values(|s: String| s@));
        }
        Ledger { ids }
    }

    /// Whether `id` is present anywhere in the ledger.
    pub fn contains(&self, id: &str) -> (r: bool)
        ensures
            r == self.contains_id(id@),
    {
        let mut i: usize = 0;
        while i < self.ids.len()
            invariant
                i <= self.ids@.len(),
                forall|j: int| 0 <= j < i ==> (#[trigger] self.ids@[j])@ != id@,
            decreases self.ids@.len() - i,
        {
            if str_eq_str(self.ids[i].as_str(), id) {
                return true;
            }
            i = i + 1;
        }
        false
    }

    /// Appends `id` to the ledger. Membership only ever grows: every id
    /// recorded before stays recorded.
    pub fn record(&mut self, id: &str)
        ensures
            final(self).ids@.len() == old(self).ids@.len() + 1,
            final(self).ids@[old(self).ids@.len() as int]@ == id@,
            final(self).ids@.take(old(self).ids@.len() as int) == old(self).ids@,
            final(self).contains_id(id@),
            forall|other: Seq<char>|
                old(self).contains_id(other) ==> final(self).contains_id(other),
    {
        let owned = id.to_owned();
        self.ids.push(owned);
        proof {
            assert(self.ids@[self.ids@.len() - 1]@ == id@);
        }
    }

    /// Renders one well-formed ledger line for an append.
    pub fn render_line(id: &str, timestamp: i64, title: &str) -> (r: String)
        ensures
            r@ == ledger_line_spec(id@, timestamp as int, title@),
    {
        let mut out = str_to_chars(id);
        out.push(' ');
        let mut ts = i64_to_dec_chars(timestamp);
        let ghost base = out@;
        let mut k: usize = 0;
        while k < ts.len()
            invariant
                k <= ts@.len(),
                out@ == base.add(ts@.take(k as int)),
            decreases ts@.len() - k,
        {
            out.push(ts[k]);
            k = k + 1;
            proof {
                assert(out@ =~= base.add(ts@.take(k as int)));
            }
        }
        out.push(' ');
        out.push('"');
        let title_chars = str_to_chars(title);
        let ghost base2 = out@;
        let mut k2: usize = 0;
        while k2 < title_chars.len()
            invariant
                k2 <= title_chars@.len(),
                out@ == base2.add(title_chars@.take(k2 as int)),
            decreases title_chars@.len() - k2,
        {
            out.push(title_chars[k2]);
            k2 = k2 + 1;
            proof {
                assert(out@ =~= base2.add(title_chars@.take(k2 as int)));
            }
        }
        out.push('"');
        out.push('\n');
        proof {
            reveal_strlit(" ");
            reveal_strlit(" \"");
            reveal_strlit("\"\n");
            assert(ts@.take(ts@.len() as int) =~= ts@);
            assert(title_chars@.take(title_chars@.len() as int) =~= title_chars@);
            assert(out@ =~= ledger_line_spec(id@, timestamp as int, title@));
        }
        chars_to_string(out.as_slice())
    }
}

/// Decimal renderings hold digits and a possible leading minus sign alone:
/// never a space and never a newline.
proof fn lemma_dec_rep_chars(n: int)
    requires
        n >= 0,
    ensures
        forall|j: int|
            0 <= j < crate::text::dec_rep(n).len() ==> #[trigger] crate::text::dec_rep(n)[j] != ' '
                && crate::text::dec_rep(n)[j] != '\n',
    decreases n,
{
    if n >= 10 {
        lemma_dec_rep_chars(n / 10);
    }
    assert forall|j: int| 0 <= j < crate::text::dec_rep(n).len() implies #[trigger] crate::text::dec_rep(
        n,
    )[j] != ' ' && crate::text::dec_rep(n)[j] != '\n' by {
        if n < 10 {
            assert(crate::text::dec_rep(n)[j] == crate::text::dec_digit(n));
        } else if j < crate::text::dec_rep(n / 10).len() {
            assert(crate::text::dec_rep(n)[j] == crate::text::dec_rep(n / 10)[j]);
        } else {
            assert(crate::text::dec_rep(n)[j] == crate::text::dec_digit(n % 10));
        }
    }
}

/// Signed decimal renderings never hold a space or a newline either.
proof fn lemma_dec_rep_signed_chars(n: int)
    ensures
        forall|j: int|
            0 <= j < dec_rep_signed(n).len() ==> #[trigger] dec_rep_signed(n)[j] != ' '
                && dec_rep_signed(n)[j] != '\n',
{
    if n < 0 {
        lemma_dec_rep_chars(-n);
    } else {
        lemma_dec_rep_chars(n);
    }
}

/// A character occurring before the first found occurrence is not `c`;
/// finding in a longer text that agrees on a prefix agrees too.
proof fn lemma_find_from_append(t: Seq<char>, u: Seq<char>, i: int, c: char)
    requires
        0 <= i <= t.len(),
        find_from(t, i, c) < t.len(),
    ensures
        find_from(t.add(u), i, c) == find_from(t, i, c),
    decreases t.len() - i,
{
    if i < t.len() && t[i] != c {
        lemma_find_from_append(t, u, i + 1, c);
    }
}

/// Whether a ledger line is well-formed enough to parse back: the id is
/// non-empty and free of spaces and newlines, and the title is free of
/// newlines.
pub open spec fn line_fields_wf(id: Seq<char>, title: Seq<char>) -> bool {
    &&& id.len() > 0
    &&& forall|j: int| 0 <= j < id.len() ==> (#[trigger] id[j]) != ' ' && id[j] != '\n'
    &&& forall|j: int| 0 <= j < title.len() ==> (#[trigger] title[j]) != '\n'
}

/// A rendered line holds exactly one newline: its last character.
proof fn lemma_line_newline(id: Seq<char>, timestamp: int, title: Seq<char>)
    requires
        line_fields_wf(id, title),
    ensures
        ledger_line_spec(id, timestamp, title).len() > 0,
        ledger_line_spec(id, timestamp, title).last() == '\n',
        forall|j: int|
            0 <= j < ledger_line_spec(id, timestamp, title).len() - 1 ==> (
            #[trigger] ledger_line_spec(id, timestamp, title)[j]) != '\n',
        find_from(ledger_line_spec(id, timestamp, title), 0, '\n') == ledger_line_spec(
            id,
            timestamp,
            title,
        ).len() - 1,
{
    reveal_strlit(" ");
    reveal_strlit(" \"");
    reveal_strlit("\"\n");
    let line = ledger_line_spec(id, timestamp, title);
    lemma_dec_rep_signed_chars(timestamp);
    assert(line.last() == '\n');
    assert forall|j: int| 0 <= j < line.len() - 1 implies (#[trigger] line[j]) != '\n' by {
        let ts = dec_rep_signed(timestamp);
        if j < id.len() {
            assert(line[j] == id[j]);
        } else if j < id.len() + 1 {
            assert(line[j] == ' ');
        } else if j < id.len() + 1 + ts.len() {
            assert(line[j] == ts[j - id.len() - 1]);
        } else if j < id.len() + 1 + ts.len() + 2 {
            assert(line[j] == " \""@[j - id.len() - 1 - ts.len()]);
        } else if j < id.len() + 1 + ts.len() + 2 + title.len() {
            assert(line[j] == title[j - id.len() - 3 - ts.len()]);
        } else {
            assert(line[j] == "\"\n"@[j - id.len() - 3 - ts.len() - title.len()]);
        }
    }
    lemma_find_from_props(line, 0, '\n');
    if find_from(line, 0, '\n') < line.len() - 1 {
        assert(line[find_from(line, 0, '\n')] == '\n');
    }
    if find_from(line, 0, '\n') >= line.len() {
        assert(line[line.len() - 1] == '\n');
    }
}

/// The id of a rendered line is the id it was rendered from.
proof fn lemma_line_id(id: Seq<char>, timestamp: int, title: Seq<char>)
    requires
        line_fields_wf(id, title),
    ensures
        line_id(ledger_line_spec(id, timestamp, title)) == Some(id),
{
    reveal_strlit(" ");
    reveal_strlit(" \"");
    reveal_strlit("\"\n");
    let line = ledger_line_spec(id, timestamp, title);
    lemma_find_from_props(line, 0, '\n');
    assert forall|j: int| 0 <= j < id.len() implies (#[trigger] line[j]) != ' ' by {
        assert(line[j] == id[j]);
    }
    assert(line[id.len() as int] == ' ');
    lemma_find_from_props(line, 0, ' ');
    let sp = find_from(line, 0, ' ');
    assert(sp <= id.len()) by {
        if sp > id.len() {
            assert(line[id.len() as int] != ' ');
        }
    }
    assert(sp == id.len());
    assert(line.take(sp) =~= id);
}

/// Appending one well-formed rendered line to a ledger text that is empty
/// or newline-terminated adds exactly that id, at the end, to the parsed
/// ids: recorded ids are never lost and the new one is recorded once.
pub proof fn lemma_append_line_parses(
    t: Seq<char>,
    id: Seq<char>,
    timestamp: int,
    title: Seq<char>,
)
    requires
        t.len() == 0 || t.last() == '\n',
        line_fields_wf(id, title),
    ensures
        ledger_text_ids(t.add(ledger_line_spec(id, timestamp, title))) == ledger_text_ids(t).push(
            id,
        ),
{
    lemma_ids_append(t, id, timestamp, title, 0);
    assert(ledger_text_ids(t).add(seq![id]) =~= ledger_text_ids(t).push(id));
}

/// Once appended, an id is among the parsed ids of the grown file — and
/// stays among them under every later append, since appends only extend
/// the parsed id list.
pub proof fn lemma_appended_id_is_recorded(
    t: Seq<char>,
    id: Seq<char>,
    timestamp: int,
    title: Seq<char>,
)
    requires
        t.len() == 0 || t.last() == '\n',
        line_fields_wf(id, title),
    ensures
        ledger_text_ids(t.add(ledger_line_spec(id, timestamp, title))).contains(id),
{
    lemma_append_line_parses(t, id, timestamp, title);
    let grown = ledger_text_ids(t).push(id);
    assert(grown[grown.len() - 1] == id);
}

/// The inductive step of `lemma_append_line_parses`, from position `i` on.
proof fn lemma_ids_append(t: Seq<char>, id: Seq<char>, timestamp: int, title: Seq<char>, i: int)
    requires
        t.len() == 0 || t.last() == '\n',
        line_fields_wf(id, title),
        0 <= i <= t.len(),
    ensures
        ids_from(t.add(ledger_line_spec(id, timestamp, title)), i) == ids_from(t, i).add(seq![id]),
    decreases t.len() - i,
{
    let line = ledger_line_spec(id, timestamp, title);
    let full = t.add(line);
    lemma_line_newline(id, timestamp, title);
    lemma_line_id(id, timestamp, title);
    if i == t.len() {
        assert(ids_from(t, i) =~= Seq::<Seq<char>>::empty());
        let j = find_from(full, i, '\n');
        assert forall|k: int| i <= k < i + line.len() - 1 implies full[k] != '\n' by {
            assert(full[k] == line[k - i]);
        }
        assert(full[i + line.len() - 1] == '\n');
        lemma_find_from_props(full, i, '\n');
        assert(j <= i + line.len() - 1) by {
            if j > i + line.len() - 1 {
                assert(full[i + line.len() - 1] != '\n');
            }
        }
        assert(j == i + line.len() - 1);
        assert(full.subrange(i, j) =~= line.take(line.len() - 1));
        assert(line_id(line.take(line.len() - 1)) == Some(id)) by {
            lemma_find_from_props(line, 0, ' ');
            lemma_find_from_props(line.take(line.len() - 1), 0, ' ');
            assert(line.take(line.len() - 1)[id.len() as int] == ' ');
            assert forall|k: int| 0 <= k < id.len() implies (#[trigger] line.take(
                line.len() - 1,
            )[k]) != ' ' by {
                assert(line.take(line.len() - 1)[k] == id[k]);
            }
            let sp2 = find_from(line.take(line.len() - 1), 0, ' ');
            assert(sp2 <= id.len()) by {
                if sp2 > id.len() {
                    assert(line.take(line.len() - 1)[id.len() as int] != ' ');
                }
            }
            assert(sp2 == id.len());
            assert(line.take(line.len() - 1).take(sp2) =~= id);
        }
        assert(ids_from(full, j + 1) =~= Seq::<Seq<char>>::empty()) by {
            lemma_find_from_props(full, j + 1, '\n');
            if j + 1 < full.len() {
                assert forall|k: int| j + 1 <= k < full.len() implies full[k] != '\n' by {
                    assert(full[k] == line[k - i]);
                }
                assert(find_from(full, j + 1, '\n') == full.len()) by {
                    if find_from(full, j + 1, '\n') < full.len() {
                        assert(full[find_from(full, j + 1, '\n')] == '\n');
                    }
                }
            }
        }
        assert(ids_from(full, i) =~= seq![id]);
        assert(ids_from(t, i).add(seq![id]) =~= seq![id]);
    } else {
        assert(t.last() == '\n');
        lemma_find_from_props(t, i, '\n');
        let j = find_from(t, i, '\n');
        assert(j < t.len()) by {
            if j == t.len() {
                assert(t[t.len() - 1] != '\n');
            }
        }
        lemma_find_from_append(t, line, i, '\n');
        assert(find_from(full, i, '\n') == j);
        assert(full.subrange(i, j) =~= t.subrange(i, j));
        lemma_ids_append(t, id, timestamp, title, j + 1);
    }
}

} // verus!
