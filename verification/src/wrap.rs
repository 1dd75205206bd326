use vstd::prelude::*;
use vstd::string::StrSliceExecFns;
use vstd::string::StringExecFns;

verus! {

/// The index of the last space strictly before position `w` in `text`, or a
/// negative value when none of those positions holds a space.
pub open spec fn last_space_before(text: Seq<char>, w: int) -> int
    decreases w,
{
    if w <= 0 {
        -1
    } else if 0 <= w - 1 < text.len() && text[w - 1] == ' ' {
        w - 1
    } else {
        last_space_before(text, w - 1)
    }
}

/// What [`last_space_before`] finds: a space position below `w`, after which
/// no further space occurs before `w`; or nothing, and then no position below
/// `w` holds a space.
pub proof fn lemma_last_space_before(text: Seq<char>, w: int)
    ensures
        last_space_before(text, w) >= 0 ==> {
            let ws = last_space_before(text, w);
            &&& 0 <= ws < w
            &&& ws < text.len()
            &&& text[ws] == ' '
            &&& forall|j: int| ws < j < w && 0 <= j < text.len() ==> text[j] != ' '
        },
        last_space_before(text, w) < 0 ==> forall|j: int|
            0 <= j < w && j < text.len() ==> text[j] != ' ',
    decreases w,
{
    if w > 0 {
        lemma_last_space_before(text, w - 1);
    }
}

/// How many spaces `text` begins with.
pub open spec fn leading_spaces(text: Seq<char>) -> int
    decreases text.len(),
{
    if text.len() == 0 {
        0
    } else if text[0] == ' ' {
        1 + leading_spaces(text.drop_first())
    } else {
        0
    }
}

/// The count of leading spaces is within bounds, they are all spaces, and
/// the first character after them is none.
pub proof fn lemma_leading_spaces_bounds(text: Seq<char>)
    ensures
        0 <= leading_spaces(text) <= text.len(),
        forall|j: int| 0 <= j < leading_spaces(text) ==> text[j] == ' ',
        leading_spaces(text) < text.len() ==> text[leading_spaces(text)] != ' ',
    decreases text.len(),
{
    if text.len() > 0 && text[0] == ' ' {
        lemma_leading_spaces_bounds(text.drop_first());
        assert forall|j: int| 0 <= j < leading_spaces(text) implies text[j] == ' ' by {
            if j > 0 {
                assert(text.drop_first()[j - 1] == text[j]);
            }
        }
    }
}

/// The count of leading spaces is `k` exactly when the first `k` characters
/// are spaces and the next one, if any, is not.
pub proof fn lemma_leading_spaces_value(text: Seq<char>, k: int)
    requires
        0 <= k <= text.len(),
        forall|j: int| 0 <= j < k ==> text[j] == ' ',
        k < text.len() ==> text[k] != ' ',
    ensures
        leading_spaces(text) == k,
    decreases k,
{
    if k == 0 {
    } else {
        assert(text[0] == ' ');
        lemma_leading_spaces_value(text.drop_first(), k - 1);
    }
}

/// `text` without its leading spaces.
pub open spec fn trim_leading(text: Seq<char>) -> Seq<char> {
    text.skip(leading_spaces(text))
}

/// The lines that wrapping `text` at width `w` produces. A text that fits the
/// width is one line. A longer text is cut before the last space among its
/// first `w` characters and the spaces at the cut are swallowed; when no
/// space is there to cut at, a word is hard-split after `w - 1` characters.
pub open spec fn wrap_lines(text: Seq<char>, w: int) -> Seq<Seq<char>>
    recommends
        2 <= w,
    decreases text.len(),
    via wrap_lines_decreases
{
    if text.len() == 0 {
        Seq::empty()
    } else if text.len() <= w {
        seq![text]
    } else {
        let ws = last_space_before(text, w);
        if ws >= 0 {
            seq![text.take(ws)] + wrap_lines(trim_leading(text.skip(ws)), w)
        } else {
            let cut = if w >= 2 {
                w - 1
            } else {
                1
            };
            seq![text.take(cut)] + wrap_lines(text.skip(cut), w)
        }
    }
}

#[via_fn]
proof fn wrap_lines_decreases(text: Seq<char>, w: int) {
    if text.len() > 0 && text.len() > w {
        let ws = last_space_before(text, w);
        if ws >= 0 {
            lemma_last_space_before(text, w);
            let rest = text.skip(ws);
            lemma_leading_spaces_bounds(rest);
            assert(rest[0] == ' ');
            assert(leading_spaces(rest) >= 1);
            assert(trim_leading(rest).len() < text.len());
        }
    }
}

/// The given lines as one text, with a line break between each two
/// neighbours.
pub open spec fn join_lines(lines: Seq<Seq<char>>) -> Seq<char>
    decreases lines.len(),
{
    if lines.len() == 0 {
        Seq::empty()
    } else if lines.len() == 1 {
        lines[0]
    } else {
        lines[0] + seq!['\n'] + join_lines(lines.drop_first())
    }
}

/// Joining a first line with the remaining ones prepends it, with a line
/// break when more lines follow.
pub proof fn lemma_join_cons(l: Seq<char>, lines: Seq<Seq<char>>)
    ensures
        join_lines(seq![l] + lines) == if lines.len() == 0 {
            l
        } else {
            l + seq!['\n'] + join_lines(lines)
        },
{
    let c = seq![l] + lines;
    assert(c[0] == l);
    if lines.len() == 0 {
        assert(c.len() == 1);
    } else {
        assert(c.drop_first() =~= lines);
    }
}

/// Every line that wrapping at width `w` produces has at most `w` characters:
/// a full tail has at most `w`, a cut at a space lies before position `w`,
/// and a hard split takes `w - 1` characters.
pub proof fn lemma_wrap_line_widths(text: Seq<char>, w: int)
    requires
        2 <= w,
    ensures
        forall|i: int|
            0 <= i < wrap_lines(text, w).len() ==> #[trigger] wrap_lines(text, w)[i].len() <= w,
    decreases text.len(),
{
    if text.len() > 0 && text.len() > w {
        let ws = last_space_before(text, w);
        lemma_last_space_before(text, w);
        if ws >= 0 {
            let rest = trim_leading(text.skip(ws));
            lemma_leading_spaces_bounds(text.skip(ws));
            assert(text.skip(ws)[0] == ' ');
            lemma_wrap_line_widths(rest, w);
            assert forall|i: int|
                0 <= i < wrap_lines(text, w).len() implies #[trigger] wrap_lines(text, w)[i].len()
                <= w by {
                if i > 0 {
                    assert(wrap_lines(text, w)[i] == wrap_lines(rest, w)[i - 1]);
                }
            }
        } else {
            let rest = text.skip(w - 1);
            lemma_wrap_line_widths(rest, w);
            assert forall|i: int|
                0 <= i < wrap_lines(text, w).len() implies #[trigger] wrap_lines(text, w)[i].len()
                <= w by {
                if i > 0 {
                    assert(wrap_lines(text, w)[i] == wrap_lines(rest, w)[i - 1]);
                }
            }
        }
    }
}

/// When the text must be split and a space lies within the width, the cut
/// falls on a space: the first line is a prefix of the text and the character
/// of the text right after it is a space, so no word is cut apart.
pub proof fn lemma_wrap_breaks_at_space(text: Seq<char>, w: int)
    requires
        2 <= w,
        text.len() > w,
        last_space_before(text, w) >= 0,
    ensures
        ({
            let line = wrap_lines(text, w)[0];
            &&& wrap_lines(text, w).len() >= 1
            &&& line =~= text.take(line.len() as int)
            &&& line.len() < w
            &&& text[line.len() as int] == ' '
        }),
{
    lemma_last_space_before(text, w);
    let ws = last_space_before(text, w);
    assert(wrap_lines(text, w)[0] == text.take(ws));
}

/// The position of the last space among the first `w` characters of `s`, if
/// any of them is a space.
fn find_last_space_before(s: &str, w: usize) -> (r: Option<usize>)
    requires
        w <= s@.len(),
    ensures
        match r {
            Some(u) => last_space_before(s@, w as int) == u as int,
            None => last_space_before(s@, w as int) == -1,
        },
{
    let mut r: Option<usize> = None;
    let mut idx: usize = 0;
    while idx < w
        invariant
            idx <= w,
            w <= s@.len(),
            match r {
                Some(u) => last_space_before(s@, idx as int) == u as int,
                None => last_space_before(s@, idx as int) == -1,
            },
        decreases w - idx,
    {
        let c = s.get_char(idx);
        if c == ' ' {
            r = Some(idx);
        }
        idx = idx + 1;
    }
    r
}

/// Counts how many spaces `s` begins with.
fn count_leading_spaces(s: &str) -> (k: usize)
    ensures
        k as int == leading_spaces(s@),
{
    let n = s.unicode_len();
    let mut k: usize = 0;
    while k < n
        invariant
            k <= n,
            n == s@.len(),
            forall|j: int| 0 <= j < k ==> s@[j] == ' ',
        decreases n - k,
    {
        if s.get_char(k) != ' ' {
            proof {
                lemma_leading_spaces_value(s@, k as int);
            }
            return k;
        }
        k = k + 1;
    }
    proof {
        lemma_leading_spaces_value(s@, k as int);
    }
    k
}

/// What of the joined text is still to come: the wrapped remainder, preceded
/// by a line break when lines have already been written out.
spec fn joined_tail(rem: Seq<char>, w: int, first: bool) -> Seq<char> {
    if wrap_lines(rem, w).len() == 0 {
        Seq::empty()
    } else if first {
        join_lines(wrap_lines(rem, w))
    } else {
        seq!['\n'] + join_lines(wrap_lines(rem, w))
    }
}

/// Wraps a note into lines of at most `max_width` characters for tabular
/// display, joined by line breaks: each line is cut before the last space
/// among the first `max_width` characters, or hard-split after
/// `max_width - 1` characters when no space is in range; the spaces at a cut
/// are swallowed.
pub fn built_multilined_note(text: &str, max_width: usize) -> (r: String)
    requires
        2 <= max_width,
    ensures
        r@ == join_lines(wrap_lines(text@, max_width as int)),
{
    let ghost w = max_width as int;
    let mut out = String::new();
    let mut first: bool = true;
    let mut rem: &str = text;
    let mut rem_len: usize = text.unicode_len();
    while rem_len > 0
        invariant
            2 <= max_width,
            w == max_width as int,
            rem_len == rem@.len(),
            first ==> out@ == Seq::<char>::empty(),
            join_lines(wrap_lines(text@, w)) == out@ + joined_tail(rem@, w, first),
        decreases rem@.len(),
    {
        let ghost rem0 = rem@;
        let ghost out0 = out@;
        proof {
            assert(wrap_lines(rem0, w).len() >= 1);
        }
        if !first {
            out.append("\n");
            proof {
                reveal_strlit("\n");
                assert("\n"@ =~= seq!['\n']);
                assert(out@ =~= out0 + seq!['\n']);
            }
        }
        let ghost out1 = out@;
        proof {
            assert(join_lines(wrap_lines(text@, w)) == out1 + join_lines(wrap_lines(rem0, w)));
        }
        if rem_len <= max_width {
            out.append(rem);
            rem = "";
            rem_len = 0;
            proof {
                reveal_strlit("");
                assert(""@ =~= Seq::<char>::empty());
                assert(wrap_lines(rem0, w) =~= seq![rem0]);
                assert(join_lines(seq![rem0]) == rem0);
                assert(out@ =~= out1 + rem0);
                assert(wrap_lines(rem@, w) =~= Seq::<Seq<char>>::empty());
                assert(joined_tail(rem@, w, false) == Seq::<char>::empty());
                assert(join_lines(wrap_lines(text@, w)) =~= out@ + joined_tail(rem@, w, false));
            }
        } else {
            match find_last_space_before(rem, max_width) {
                Some(ws) => {
                    proof {
                        lemma_last_space_before(rem0, w);
                    }
                    let line = rem.substring_char(0, ws);
                    out.append(line);
                    let rest = rem.substring_char(ws, rem_len);
                    proof {
                        lemma_leading_spaces_bounds(rest@);
                        assert(rest@[0] == ' ');
                    }
                    let k = count_leading_spaces(rest);
                    let rest_len = rem_len - ws;
                    rem = rest.substring_char(k, rest_len);
                    rem_len = rest_len - k;
                    proof {
                        assert(line@ =~= rem0.take(ws as int));
                        assert(rest@ =~= rem0.skip(ws as int));
                        assert(rem@ =~= trim_leading(rem0.skip(ws as int)));
                        assert(wrap_lines(rem0, w) == seq![line@] + wrap_lines(rem@, w));
                        lemma_join_cons(line@, wrap_lines(rem@, w));
                        assert(out@ =~= out1 + line@);
                        assert(join_lines(wrap_lines(text@, w)) =~= out@ + joined_tail(
                            rem@,
                            w,
                            false,
                        ));
                    }
                },
                None => {
                    let cut = max_width - 1;
                    let line = rem.substring_char(0, cut);
                    out.append(line);
                    rem = rem.substring_char(cut, rem_len);
                    rem_len = rem_len - cut;
                    proof {
                        assert(line@ =~= rem0.take(cut as int));
                        assert(rem@ =~= rem0.skip(cut as int));
                        assert(wrap_lines(rem0, w) == seq![line@] + wrap_lines(rem@, w));
                        lemma_join_cons(line@, wrap_lines(rem@, w));
                        assert(out@ =~= out1 + line@);
                        assert(join_lines(wrap_lines(text@, w)) =~= out@ + joined_tail(
                            rem@,
                            w,
                            false,
                        ));
                    }
                },
            }
        }
        first = false;
    }
    proof {
        assert(joined_tail(rem@, w, first) == Seq::<char>::empty());
        assert(join_lines(wrap_lines(text@, w)) =~= out@);
    }
    out
}

} // verus!
