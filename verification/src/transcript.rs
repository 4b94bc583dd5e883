use vstd::prelude::*;

use crate::text::{is_ws_exec, string_from_chars, to_char_vec, trim_chars, trimmed};

verus! {

/// A preview keeps at most this many characters of the transcript.
pub const PREVIEW_MAX_CHARS: usize = 100;

/// The lines of a text, split on line feeds. A text always has at least one
/// (possibly empty) line; a trailing line feed yields a final empty line.
pub open spec fn lines_of(s: Seq<char>) -> Seq<Seq<char>>
    decreases s.len(),
{
    if s.len() == 0 {
        seq![Seq::<char>::empty()]
    } else {
        let r = lines_of(s.drop_last());
        if s.last() == '\n' {
            r.push(Seq::<char>::empty())
        } else {
            r.update(r.len() - 1, r.last().push(s.last()))
        }
    }
}

/// There is always at least one line.
pub proof fn lemma_lines_of_nonempty(s: Seq<char>)
    ensures
        lines_of(s).len() > 0,
    decreases s.len(),
{
    if s.len() > 0 {
        lemma_lines_of_nonempty(s.drop_last());
    }
}

/// A line contains "-->" somewhere.
pub open spec fn has_arrow(t: Seq<char>) -> bool {
    exists|k: int|
        0 <= k && k + 3 <= t.len() && t[k] == '-' && t[k + 1] == '-' && (#[trigger] t[k + 2])
            == '>'
}

/// An annotation line, as the speech tool emits them: its trimmed form starts
/// with "[" and contains "-->". Such lines are stripped from transcripts.
pub open spec fn is_annotation(l: Seq<char>) -> bool {
    let t = trimmed(l);
    t.len() > 0 && t[0] == '[' && has_arrow(t)
}

/// The lines that survive cleaning, in order.
pub open spec fn kept_lines(ls: Seq<Seq<char>>) -> Seq<Seq<char>>
    decreases ls.len(),
{
    if ls.len() == 0 {
        Seq::empty()
    } else {
        let r = kept_lines(ls.drop_last());
        if is_annotation(ls.last()) {
            r
        } else {
            r.push(ls.last())
        }
    }
}

/// Join lines with single line feeds.
pub open spec fn join_lines(ls: Seq<Seq<char>>) -> Seq<char>
    decreases ls.len(),
{
    if ls.len() == 0 {
        Seq::empty()
    } else if ls.len() == 1 {
        ls[0]
    } else {
        join_lines(ls.drop_last()) + seq!['\n'] + ls.last()
    }
}

/// A cleaned transcript: the non-annotation lines, rejoined, with the
/// surrounding whitespace trimmed.
pub open spec fn clean_spec(s: Seq<char>) -> Seq<char> {
    trimmed(join_lines(kept_lines(lines_of(s))))
}

/// Whether the line is an annotation line, decidable in code.
fn line_is_annotation(line: &Vec<char>) -> (r: bool)
    ensures
        r == is_annotation(line@),
{
    let t = trim_chars(line);
    if t.len() == 0 {
        return false;
    }
    if t[0] != '[' {
        return false;
    }
    if t.len() < 3 {
        proof {
            assert(!has_arrow(t@));
        }
        return false;
    }
    let last_start = t.len() - 3;
    let mut k: usize = 0;
    while k <= last_start
        invariant
            k <= last_start + 1,
            last_start == t@.len() - 3,
            t@.len() <= usize::MAX,
            t@ == trimmed(line@),
            t@.len() > 0 && t@[0] == '[',
            forall|m: int|
                0 <= m < k ==> !(t@[m] == '-' && t@[m + 1] == '-' && (#[trigger] t@[m + 2])
                    == '>'),
        decreases last_start + 1 - k,
    {
        if t[k] == '-' && t[k + 1] == '-' && t[k + 2] == '>' {
            proof {
                assert(0 <= k as int && k as int + 3 <= t@.len() && t@[k as int] == '-'
                    && t@[k as int + 1] == '-' && t@[k as int + 2] == '>');
                assert(has_arrow(t@));
            }
            return true;
        }
        k = k + 1;
    }
    proof {
        assert(!has_arrow(t@));
    }
    false
}

/// Split a character vector into its lines.
fn split_lines(chars: &Vec<char>) -> (lines: Vec<Vec<char>>)
    ensures
        lines@.map_values(|l: Vec<char>| l@) == lines_of(chars@),
{
    let mut done: Vec<Vec<char>> = Vec::new();
    let mut cur: Vec<char> = Vec::new();
    let mut i: usize = 0;
    while i < chars.len()
        invariant
            i <= chars@.len(),
            done@.map_values(|l: Vec<char>| l@).push(cur@) == lines_of(
                chars@.subrange(0, i as int),
            ),
        decreases chars@.len() - i,
    {
        let ghost prefix = chars@.subrange(0, i as int);
        proof {
            assert(chars@.subrange(0, (i + 1) as int).drop_last() =~= prefix);
            assert(chars@.subrange(0, (i + 1) as int).last() == chars@[i as int]);
        }
        let c = chars[i];
        if c == '\n' {
            let ghost old_done = done@;
            done.push(cur);
            cur = Vec::new();
            proof {
                assert(done@.map_values(|l: Vec<char>| l@) =~= old_done.map_values(
                    |l: Vec<char>| l@,
                ).push(lines_of(prefix).last()));
                assert(done@.map_values(|l: Vec<char>| l@).push(cur@) =~= lines_of(
                    chars@.subrange(0, (i + 1) as int),
                ));
            }
        } else {
            let ghost old_cur = cur@;
            cur.push(c);
            proof {
                let f = |l: Vec<char>| l@;
                let lhs = done@.map_values(f).push(cur@);
                let rhs = lines_of(chars@.subrange(0, (i + 1) as int));
                let r = lines_of(prefix);
                assert(r == done@.map_values(f).push(old_cur));
                assert(r.len() == done@.len() + 1);
                assert(rhs =~= r.update(r.len() - 1, r.last().push(chars@[i as int])));
                assert(r.last() == old_cur);
                assert(lhs =~= rhs);
            }
        }
        i = i + 1;
    }
    proof {
        assert(chars@.subrange(0, chars@.len() as int) =~= chars@);
    }
    let ghost old_done = done@;
    done.push(cur);
    proof {
        assert(done@.map_values(|l: Vec<char>| l@) =~= old_done.map_values(
            |l: Vec<char>| l@,
        ).push(lines_of(chars@).last()));
        lemma_lines_of_nonempty(chars@);
        assert(done@.map_values(|l: Vec<char>| l@) =~= lines_of(chars@));
    }
    done
}

/// Strip annotation lines from raw speech-tool output and trim the
/// surrounding whitespace: a line whose trimmed form starts with "[" and
/// contains "-->" is removed; every other line is preserved verbatim.
pub fn clean_transcript(raw: &str) -> (r: String)
    ensures
        r@ == clean_spec(raw@),
{
    let chars = to_char_vec(raw);
    let lines = split_lines(&chars);
    let ghost all_lines = lines@.map_values(|l: Vec<char>| l@);
    let mut kept: Vec<Vec<char>> = Vec::new();
    let mut i: usize = 0;
    proof {
        assert(all_lines.subrange(0, 0) =~= Seq::<Seq<char>>::empty());
        assert(kept@.map_values(|l: Vec<char>| l@) =~= kept_lines(all_lines.subrange(0, 0)));
    }
    while i < lines.len()
        invariant
            i <= lines@.len(),
            all_lines == lines@.map_values(|l: Vec<char>| l@),
            kept@.map_values(|l: Vec<char>| l@) == kept_lines(all_lines.subrange(0, i as int)),
        decreases lines@.len() - i,
    {
        proof {
            assert(all_lines.subrange(0, (i + 1) as int).drop_last() =~= all_lines.subrange(
                0,
                i as int,
            ));
            assert(all_lines.subrange(0, (i + 1) as int).last() == all_lines[i as int]);
        }
        let keep = !line_is_annotation(&lines[i]);
        if keep {
            let ghost old_kept = kept@;
            let line = lines[i].clone();
            proof {
                assert(line@ == all_lines[i as int]);
            }
            kept.push(line);
            proof {
                assert(kept@.map_values(|l: Vec<char>| l@) =~= old_kept.map_values(
                    |l: Vec<char>| l@,
                ).push(all_lines[i as int]));
            }
        }
        i = i + 1;
    }
    proof {
        assert(all_lines.subrange(0, all_lines.len() as int) =~= all_lines);
    }
    let ghost kept_view = kept@.map_values(|l: Vec<char>| l@);
    let mut joined: Vec<char> = Vec::new();
    let mut j: usize = 0;
    proof {
        assert(kept_view.subrange(0, 0) =~= Seq::<Seq<char>>::empty());
    }
    while j < kept.len()
        invariant
            j <= kept@.len(),
            kept_view == kept@.map_values(|l: Vec<char>| l@),
            joined@ == join_lines(kept_view.subrange(0, j as int)),
        decreases kept@.len() - j,
    {
        proof {
            assert(kept_view.subrange(0, (j + 1) as int).drop_last() =~= kept_view.subrange(
                0,
                j as int,
            ));
            assert(kept_view.subrange(0, (j + 1) as int).last() == kept_view[j as int]);
        }
        let ghost old_joined = joined@;
        if j > 0 {
            joined.push('\n');
        }
        let mut k: usize = 0;
        let line = &kept[j];
        let ghost mid_joined = joined@;
        while k < line.len()
            invariant
                k <= line@.len(),
                line@ == kept_view[j as int],
                joined@ == mid_joined + line@.subrange(0, k as int),
            decreases line@.len() - k,
        {
            joined.push(line[k]);
            proof {
                assert(line@.subrange(0, (k + 1) as int) =~= line@.subrange(0, k as int).push(
                    line@[k as int],
                ));
            }
            k = k + 1;
        }
        proof {
            assert(line@.subrange(0, line@.len() as int) =~= line@);
            if j == 0 {
                assert(kept_view.subrange(0, 1).len() == 1);
                assert(joined@ =~= join_lines(kept_view.subrange(0, (j + 1) as int)));
            } else {
                assert(joined@ =~= join_lines(kept_view.subrange(0, j as int)) + seq!['\n']
                    + kept_view[j as int]);
                assert(joined@ =~= join_lines(kept_view.subrange(0, (j + 1) as int)));
            }
        }
        j = j + 1;
    }
    proof {
        assert(kept_view.subrange(0, kept_view.len() as int) =~= kept_view);
    }
    let out = trim_chars(&joined);
    string_from_chars(&out)
}

/// The preview of a transcript: the text itself when it has no more than
/// `PREVIEW_MAX_CHARS` characters, its first `PREVIEW_MAX_CHARS` characters
/// followed by an ellipsis when longer, and a fixed placeholder when empty.
pub open spec fn preview_spec(t: Seq<char>) -> Seq<char> {
    if t.len() == 0 {
        "No transcript"@
    } else if t.len() > PREVIEW_MAX_CHARS {
        t.take(PREVIEW_MAX_CHARS as int) + "..."@
    } else {
        t
    }
}

/// Derive the preview shown in the session list from the transcript text.
pub fn generate_preview(text: &str) -> (r: String)
    ensures
        r@ == preview_spec(text@),
{
    let n = text.unicode_len();
    if n == 0 {
        "No transcript".to_owned()
    } else if n > PREVIEW_MAX_CHARS {
        let head = text.substring_char(0, PREVIEW_MAX_CHARS);
        let r = head.to_owned().concat("...");
        proof {
            assert(r@ =~= preview_spec(text@));
        }
        r
    } else {
        text.to_owned()
    }
}

} // verus!
