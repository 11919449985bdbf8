//! The transcript builder: a pure, deterministic rendering of an ordered
//! sequence of note entries into one author-grouped text.

use vstd::prelude::*;

use crate::ids::{dec_nat, u64_dec};
use crate::notes::{entries_view, EntryModel, SessionEntry};

verus! {

/// The attribution header emitted when the author changes: a blank line,
/// then a mention-style reference to the author, on its own line.
pub open spec fn author_header(author: int) -> Seq<char> {
    seq!['\n', ':', '<', '@'] + dec_nat(author as nat) + seq!['>', '\n']
}

/// The spec-level value of the tracked previous author.
pub open spec fn opt_author(a: Option<u64>) -> Option<int> {
    match a {
        Some(v) => Some(v as int),
        None => None,
    }
}

/// The untrimmed transcript of `entries`, walked with `last` as the author
/// of the previous entry (initially none): wherever the current entry's
/// author differs from the tracked one, an attribution header; then the
/// entry's content on its own line.
pub open spec fn transcript_from(entries: Seq<EntryModel>, last: Option<int>) -> Seq<char>
    decreases entries.len(),
{
    if entries.len() == 0 {
        Seq::empty()
    } else {
        let e = entries[0];
        let header: Seq<char> = if last != Some(e.author) {
            author_header(e.author)
        } else {
            Seq::empty()
        };
        header + e.content + seq!['\n'] + transcript_from(entries.drop_first(), Some(e.author))
    }
}

/// Whether `c` counts as whitespace for transcript trimming.
pub open spec fn is_space_char(c: char) -> bool {
    c == ' ' || c == '\t' || c == '\n' || c == '\r'
}

/// `s` with leading and trailing whitespace removed.
pub open spec fn trim_ws(s: Seq<char>) -> Seq<char>
    decreases s.len(),
{
    if s.len() == 0 {
        s
    } else if is_space_char(s[0]) {
        trim_ws(s.drop_first())
    } else if is_space_char(s.last()) {
        trim_ws(s.drop_last())
    } else {
        s
    }
}

/// The finished transcript: the author-grouped walk of the entries in
/// input order, trimmed. Empty input yields the empty string.
pub open spec fn transcript_of(entries: Seq<EntryModel>) -> Seq<char> {
    trim_ws(transcript_from(entries, None))
}

fn is_space(c: char) -> (r: bool)
    ensures
        r == is_space_char(c),
{
    c == ' ' || c == '\t' || c == '\n' || c == '\r'
}

proof fn lemma_trim_ws_range(s: Seq<char>, lo: int, hi: int)
    requires
        0 <= lo <= hi <= s.len(),
        forall|k: int| 0 <= k < lo ==> is_space_char(#[trigger] s[k]),
        forall|k: int| hi <= k < s.len() ==> is_space_char(#[trigger] s[k]),
        lo < hi ==> !is_space_char(s[lo]) && !is_space_char(s[hi - 1]),
    ensures
        trim_ws(s) == s.subrange(lo, hi),
    decreases s.len(),
{
    if s.len() == 0 {
        assert(s.subrange(lo, hi) =~= s);
    } else if is_space_char(s[0]) {
        let t = s.drop_first();
        if lo == hi {
            lemma_trim_ws_range(t, 0, 0);
            assert(s.subrange(lo, hi) =~= t.subrange(0, 0));
        } else {
            assert(lo >= 1);
            lemma_trim_ws_range(t, lo - 1, hi - 1);
            assert(s.subrange(lo, hi) =~= t.subrange(lo - 1, hi - 1));
        }
    } else if is_space_char(s.last()) {
        let t = s.drop_last();
        assert(hi <= s.len() - 1);
        lemma_trim_ws_range(t, lo, hi);
        assert(s.subrange(lo, hi) =~= t.subrange(lo, hi));
    } else {
        assert(lo == 0);
        assert(hi == s.len());
        assert(s.subrange(lo, hi) =~= s);
    }
}

/// Removes leading and trailing whitespace, character-exactly as
/// `trim_ws` describes it.
#[verifier::loop_isolation(false)]
pub fn trim_whitespace(s: &str) -> (r: String)
    ensures
        r@ == trim_ws(s@),
{
    let n = s.unicode_len();
    let mut lo: usize = 0;
    while lo < n && is_space(s.get_char(lo))
        invariant
            0 <= lo <= n,
            forall|k: int| 0 <= k < lo ==> is_space_char(#[trigger] s@[k]),
        decreases n - lo,
    {
        lo = lo + 1;
    }
    let mut hi: usize = n;
    while hi > lo && is_space(s.get_char(hi - 1))
        invariant
            lo <= hi <= n,
            forall|k: int| hi <= k < n ==> is_space_char(#[trigger] s@[k]),
        decreases hi,
    {
        hi = hi - 1;
    }
    if lo == hi {
        proof {
            lemma_trim_ws_range(s@, lo as int, hi as int);
        }
        let r = String::new();
        proof {
            assert(r@ =~= s@.subrange(lo as int, hi as int));
        }
        r
    } else {
        proof {
            lemma_trim_ws_range(s@, lo as int, hi as int);
        }
        let sub = s.substring_char(lo, hi);
        sub.to_owned()
    }
}

/// Builds the transcript of `entries`, taken in input order: entries are
/// grouped under attribution headers wherever the author changes, each
/// content on its own line, and the result is trimmed. An empty input
/// produces the empty string.
#[verifier::loop_isolation(false)]
pub fn build_session_notes_output(entries: &Vec<SessionEntry>) -> (out: String)
    ensures
        out@ == transcript_of(entries_view(entries@)),
{
    let ghost models = entries_view(entries@);
    let mut raw = String::new();
    let mut last_author: Option<u64> = None;
    let n = entries.len();
    let mut i: usize = 0;
    proof {
        assert(models.skip(0) =~= models);
    }
    while i < n
        invariant
            0 <= i <= n,
            n == entries@.len(),
            i == 0 ==> last_author is None,
            i > 0 ==> (last_author matches Some(a) && a as int == models[i - 1].author),
            raw@ + transcript_from(models.skip(i as int), opt_author(last_author))
                == transcript_from(models, None),
        decreases n - i,
    {
        let ghost tail = models.skip(i as int);
        let ghost raw0 = raw@;
        proof {
            assert(tail[0] == models[i as int]);
            assert(tail.drop_first() =~= models.skip(i + 1));
        }
        let e = &entries[i];
        assert(e@ == models[i as int]);
        let differs = match last_author {
            None => true,
            Some(a) => a != e.author,
        };
        assert(differs == (opt_author(last_author) != Some(models[i as int].author)));
        if differs {
            raw.append("\n:<@");
            let digits = u64_dec(e.author);
            raw.append(digits.as_str());
            raw.append(">\n");
            proof {
                reveal_strlit("\n:<@");
                reveal_strlit(">\n");
                assert(raw@ =~= raw0 + author_header(models[i as int].author));
            }
        }
        raw.append(e.content.as_str());
        raw.append("\n");
        proof {
            reveal_strlit("\n");
            let header: Seq<char> = if opt_author(last_author) != Some(
                models[i as int].author,
            ) {
                author_header(models[i as int].author)
            } else {
                Seq::empty()
            };
            assert(raw@ =~= raw0 + header + models[i as int].content + seq!['\n']);
            assert(transcript_from(tail, opt_author(last_author)) == header
                + models[i as int].content + seq!['\n'] + transcript_from(
                models.skip(i + 1),
                Some(models[i as int].author),
            ));
            assert(raw@ + transcript_from(models.skip(i + 1), Some(models[i as int].author))
                =~= raw0 + transcript_from(tail, opt_author(last_author)));
        }
        last_author = Some(e.author);
        i = i + 1;
    }
    proof {
        assert(models.skip(n as int) =~= Seq::<EntryModel>::empty());
        assert(raw@ + transcript_from(models.skip(n as int), opt_author(last_author)) =~= raw@);
    }
    trim_whitespace(raw.as_str())
}

} // verus!
