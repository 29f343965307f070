//! Decoding of the two fpsgo tables: `fbt/fbt_info` for the latest vsync
//! timestamp, `fstb/fpsgo_status` for the per-surface current FPS.
use vstd::prelude::*;
use crate::text::{chars_of, lines, parse_unsigned, split_lines, split_tokens, tokens, unsigned_value, views};
use crate::Fps;

verus! {

/// Index of the `fbt_info` line that holds the enable flag and the timestamp.
pub const FBT_LINE: usize = 8;

/// Index of the vsync timestamp among the tokens of that line.
pub const VSYNC_TOKEN: usize = 6;

/// Index of the current FPS among the tokens of a `fpsgo_status` row.
pub const FPS_TOKEN: usize = 3;

/// Number of metadata lines at the end of `fpsgo_status`.
pub const TRAILER_LINES: usize = 3;

/// The latest vsync timestamp that `fbt_info` reports, if fpsgo is enabled
/// (first token of the line is exactly `1`) and the timestamp token is an
/// unsigned 64-bit decimal.
pub open spec fn frametime_of(text: Seq<char>) -> Option<u64> {
    let ls = lines(text);
    if ls.len() > FBT_LINE {
        let ts = tokens(ls[FBT_LINE as int]);
        if ts.len() > VSYNC_TOKEN && ts[0] == seq!['1'] {
            match unsigned_value(ts[VSYNC_TOKEN as int], u64::MAX as nat) {
                Some(v) => Some(v as u64),
                None => None,
            }
        } else {
            None
        }
    } else {
        None
    }
}

/// The surface rows of `fpsgo_status`: all lines but the header and the
/// metadata trailer.
pub open spec fn fps_rows(text: Seq<char>) -> Seq<Seq<char>> {
    let ls = lines(text);
    if ls.len() > 1 + TRAILER_LINES {
        ls.subrange(1, ls.len() - TRAILER_LINES)
    } else {
        Seq::empty()
    }
}

/// The current FPS of one row, when its column is an unsigned 32-bit decimal.
/// A negative value marks an inactive surface and has none.
pub open spec fn row_fps(row: Seq<char>) -> Option<u32> {
    let ts = tokens(row);
    if ts.len() > FPS_TOKEN {
        match unsigned_value(ts[FPS_TOKEN as int], u32::MAX as nat) {
            Some(v) => Some(v as u32),
            None => None,
        }
    } else {
        None
    }
}

/// The largest row FPS among `rows`, none if no row has one.
pub open spec fn max_row_fps(rows: Seq<Seq<char>>) -> Option<u32>
    decreases rows.len(),
{
    if rows.len() == 0 {
        None
    } else {
        let prev = max_row_fps(rows.drop_last());
        match (prev, row_fps(rows.last())) {
            (Some(a), Some(b)) => Some(if a >= b { a } else { b }),
            (Some(a), None) => Some(a),
            (None, b) => b,
        }
    }
}

pub open spec fn fps_of(text: Seq<char>) -> Option<u32> {
    max_row_fps(fps_rows(text))
}

/// `max_row_fps` is the maximum of the row values that exist.
pub proof fn lemma_max_row_fps(rows: Seq<Seq<char>>)
    ensures
        max_row_fps(rows) is None <==> (forall|i: int|
            0 <= i < rows.len() ==> #[trigger] row_fps(rows[i]) is None),
        max_row_fps(rows) matches Some(m) ==> (exists|i: int|
            0 <= i < rows.len() && #[trigger] row_fps(rows[i]) == Some(m)),
        max_row_fps(rows) matches Some(m) ==> (forall|i: int|
            0 <= i < rows.len() && #[trigger] row_fps(rows[i]) is Some ==> row_fps(
                rows[i],
            )->0 <= m),
    decreases rows.len(),
{
    if rows.len() > 0 {
        let init = rows.drop_last();
        lemma_max_row_fps(init);
        assert forall|i: int| 0 <= i < init.len() implies init[i] == rows[i] by {}
        let last = rows.len() - 1;
        assert(rows[last] == rows.last());
        if max_row_fps(init) is None && row_fps(rows.last()) is Some {
            assert(row_fps(rows[last]) == max_row_fps(rows));
        }
        if let Some(m) = max_row_fps(rows) {
            if let Some(p) = max_row_fps(init) {
                if p >= m {
                    let j = choose|j: int| 0 <= j < init.len() && row_fps(init[j]) == Some(p);
                    assert(row_fps(rows[j]) == Some(m));
                } else {
                    assert(row_fps(rows[last]) == Some(m));
                }
            }
        }
    }
}

/// The vsync timestamp of an `fbt_info` snapshot: line 8, token 6, present
/// only when token 0 of that line is `1`.
pub fn parse_frametime(fbt_info: &str) -> (r: Option<u64>)
    ensures
        r == frametime_of(fbt_info@),
{
    let text = chars_of(fbt_info);
    let ls = split_lines(&text);
    if ls.len() <= FBT_LINE {
        return None;
    }
    let ts = split_tokens(&ls[FBT_LINE]);
    assert(views(ls@)[FBT_LINE as int] == ls@[FBT_LINE as int]@);
    if ts.len() <= VSYNC_TOKEN {
        return None;
    }
    assert(views(ts@)[0] == ts@[0]@);
    assert(views(ts@)[VSYNC_TOKEN as int] == ts@[VSYNC_TOKEN as int]@);
    let flag = &ts[0];
    if !(flag.len() == 1 && flag[0] == '1') {
        proof {
            if flag@ == seq!['1'] {
                assert(flag@.len() == 1 && flag@[0] == '1');
            }
        }
        return None;
    }
    assert(flag@ =~= seq!['1']);
    parse_unsigned(&ts[VSYNC_TOKEN], u64::MAX)
}

/// The current FPS of the busiest surface in a `fpsgo_status` snapshot:
/// the maximum of column 3 over the rows between the header line and the
/// three metadata lines, none when no row has a readable value there.
pub fn parse_fps(fpsgo_status: &str) -> (r: Option<Fps>)
    ensures
        r == fps_of(fpsgo_status@),
        r is None <==> (forall|i: int|
            0 <= i < fps_rows(fpsgo_status@).len() ==> #[trigger] row_fps(
                fps_rows(fpsgo_status@)[i],
            ) is None),
        r matches Some(m) ==> (exists|i: int|
            0 <= i < fps_rows(fpsgo_status@).len() && #[trigger] row_fps(
                fps_rows(fpsgo_status@)[i],
            ) == Some(m)),
        r matches Some(m) ==> (forall|i: int|
            0 <= i < fps_rows(fpsgo_status@).len() && #[trigger] row_fps(
                fps_rows(fpsgo_status@)[i],
            ) is Some ==> row_fps(fps_rows(fpsgo_status@)[i])->0 <= m),
{
    proof {
        lemma_max_row_fps(fps_rows(fpsgo_status@));
    }
    let text = chars_of(fpsgo_status);
    let ls = split_lines(&text);
    let ghost rows = fps_rows(fpsgo_status@);
    if ls.len() <= 1 + TRAILER_LINES {
        assert(rows.len() == 0);
        return None;
    }
    let end = ls.len() - TRAILER_LINES;
    let mut best: Option<Fps> = None;
    let mut i: usize = 1;
    while i < end
        invariant
            1 <= i <= end,
            end == ls@.len() - TRAILER_LINES,
            ls@.len() > 1 + TRAILER_LINES,
            views(ls@) == lines(fpsgo_status@),
            rows == fps_rows(fpsgo_status@),
            best == max_row_fps(rows.take(i - 1)),
        decreases end - i,
    {
        let ts = split_tokens(&ls[i]);
        assert(views(ls@)[i as int] == ls@[i as int]@);
        assert(rows[i - 1] == ls@[i as int]@);
        let mut value: Option<Fps> = None;
        if ts.len() > FPS_TOKEN {
            assert(views(ts@)[FPS_TOKEN as int] == ts@[FPS_TOKEN as int]@);
            match parse_unsigned(&ts[FPS_TOKEN], u32::MAX as u64) {
                Some(v) => {
                    value = Some(v as u32);
                },
                None => {},
            }
        }
        assert(value == row_fps(rows[i - 1]));
        best = match (best, value) {
            (Some(a), Some(b)) => Some(if a >= b { a } else { b }),
            (Some(a), None) => Some(a),
            (None, b) => b,
        };
        proof {
            assert(rows.take(i as int).drop_last() =~= rows.take(i - 1));
            assert(rows.take(i as int).last() == rows[i - 1]);
        }
        i = i + 1;
    }
    assert(rows.take(i - 1) =~= rows);
    best
}

/// A snapshot whose line 8 does not start with the token `1` yields no
/// timestamp.
pub proof fn lemma_disabled_has_no_frametime(text: Seq<char>)
    requires
        !(lines(text).len() > FBT_LINE && tokens(lines(text)[FBT_LINE as int]).len() > 0
            && tokens(lines(text)[FBT_LINE as int])[0] == seq!['1']),
    ensures
        frametime_of(text) is None,
{
}

/// A status snapshot none of whose surface rows has a readable FPS column
/// yields no FPS.
pub proof fn lemma_no_readable_row_has_no_fps(text: Seq<char>)
    requires
        forall|i: int| 0 <= i < fps_rows(text).len() ==> #[trigger] row_fps(fps_rows(text)[i]) is None,
    ensures
        fps_of(text) is None,
{
    lemma_max_row_fps(fps_rows(text));
}

} // verus!
