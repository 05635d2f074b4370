use std::sync::{Arc, Mutex};
use vstd::prelude::*;

verus! {

/// std's `Mutex`: a lock around shared data. The library only carries it.
#[verifier::external_type_specification]
#[verifier::external_body]
#[verifier::reject_recursive_types(T)]
pub struct ExMutex<T: ?Sized>(Mutex<T>);

/// The activity log lines, shared between the global logger and the log window.
pub type LogsMutex = Arc<Mutex<Vec<String>>>;

/// The logger that the `log` facade writes to: it appends to the shared lines.
pub struct LoggerGlobal {
    logs: LogsMutex,
}

impl LoggerGlobal {
    pub fn new(logs_mutex: LogsMutex) -> (r: LoggerGlobal)
        ensures
            r.logs() == logs_mutex,
    {
        LoggerGlobal { logs: logs_mutex }
    }

    pub closed spec fn logs(&self) -> LogsMutex {
        self.logs
    }

    /// The shared log lines.
    pub fn logs_mutex(&self) -> (r: &LogsMutex)
        ensures
            *r == self.logs(),
    {
        &self.logs
    }
}

/// The activity log window: the shared lines and how far up it is scrolled.
pub struct Logger {
    logs: LogsMutex,
    offset: usize,
}

/// The number of screen lines that a log line of `chars` characters takes in
/// a window `width` columns wide; an empty line still takes one.
pub open spec fn lines_for(chars: nat, width: nat) -> nat {
    if chars == 0 {
        1
    } else {
        (((chars - 1) as nat) / width + 1) as nat
    }
}

/// The screen lines that log lines `a` up to (not including) `b` take together.
pub open spec fn height_of(counts: Seq<usize>, width: nat, a: int, b: int) -> nat
    decreases b - a,
{
    if b <= a {
        0
    } else {
        height_of(counts, width, a, b - 1) + lines_for(counts[b - 1] as nat, width)
    }
}

proof fn lemma_lines_for_bounds(chars: nat, width: nat)
    requires
        width > 0,
    ensures
        1 <= lines_for(chars, width),
        lines_for(chars, width) <= if chars == 0 {
            1
        } else {
            chars
        },
{
    if chars > 0 {
        assert(((chars - 1) as nat) / width <= chars - 1) by (nonlinear_arith)
            requires
                width > 0,
                chars > 0,
        ;
    }
}

/// Taking one more line at the front adds its height.
proof fn lemma_height_extend_front(counts: Seq<usize>, width: nat, a: int, b: int)
    requires
        0 < a <= b,
    ensures
        height_of(counts, width, a - 1, b) == height_of(counts, width, a, b) + lines_for(
            counts[a - 1] as nat,
            width,
        ),
    decreases b - a,
{
    if b > a {
        lemma_height_extend_front(counts, width, a, b - 1);
        assert(height_of(counts, width, a - 1, b) == height_of(counts, width, a - 1, b - 1)
            + lines_for(counts[b - 1] as nat, width));
        assert(height_of(counts, width, a, b) == height_of(counts, width, a, b - 1) + lines_for(
            counts[b - 1] as nat,
            width,
        ));
    } else {
        assert(height_of(counts, width, a - 1, a - 1) == 0);
        assert(height_of(counts, width, a, a) == 0);
    }
}

/// More lines never take less height.
proof fn lemma_height_monotone(counts: Seq<usize>, width: nat, a: int, b: int, c: int, d: int)
    requires
        0 <= c <= a <= b <= d,
        width > 0,
    ensures
        height_of(counts, width, a, b) <= height_of(counts, width, c, d),
    decreases (a - c) + (d - b),
{
    if b < d {
        lemma_height_monotone(counts, width, a, b, c, d - 1);
    } else if c < a {
        lemma_height_monotone(counts, width, a, b, c + 1, d);
        lemma_height_extend_front(counts, width, c + 1, d);
    }
}

/// The most lines that can be scrolled out below a window, out of `n`, when
/// the first `k` lines are the fewest that overflow it: all but the `k - 1`
/// oldest, which fit together; all but the oldest when even it alone overflows.
pub open spec fn scroll_limit(n: int, k: int) -> int {
    if k - 1 >= 1 {
        n - (k - 1)
    } else {
        n - 1
    }
}

/// The lines `start` up to `end` are what a window of height `limit` shows
/// above line `end`: at least one line, then as many earlier ones as fit.
pub open spec fn window_from(counts: Seq<usize>, w: nat, limit: nat, start: int, end: int) -> bool {
    &&& 0 <= start < end
    &&& (start == end - 1 || height_of(counts, w, start, end) <= limit)
    &&& (start == 0 || height_of(counts, w, start - 1, end) > limit)
}

impl Logger {
    pub fn new(logs_mutex: LogsMutex) -> (r: Logger)
        ensures
            r.logs() == logs_mutex,
            r.offset() == 0,
    {
        Self { logs: logs_mutex, offset: 0 }
    }

    pub closed spec fn logs(&self) -> LogsMutex {
        self.logs
    }

    /// How many of the latest lines are scrolled out below the window.
    pub closed spec fn offset(&self) -> usize {
        self.offset
    }

    /// The shared log lines.
    pub fn logs_mutex(&self) -> (r: &LogsMutex)
        ensures
            *r == self.logs(),
    {
        &self.logs
    }

    /// How many of the latest lines are scrolled out below the window.
    pub fn get_offset(&self) -> (r: usize)
        ensures
            r == self.offset(),
    {
        self.offset
    }

    /// Scrolls one line further back in the log.
    pub fn scroll_up(&mut self)
        ensures
            final(self).offset() == (if old(self).offset() == usize::MAX {
                usize::MAX as int
            } else {
                old(self).offset() + 1
            }),
            final(self).logs() == old(self).logs(),
    {
        self.offset = self.offset.saturating_add(1);
    }

    /// Scrolls one line towards the latest entries.
    pub fn scroll_down(&mut self)
        ensures
            final(self).offset() == (if old(self).offset() == 0 {
                0
            } else {
                old(self).offset() - 1
            }),
            final(self).logs() == old(self).logs(),
    {
        self.offset = self.offset.saturating_sub(1);
    }

    /// Which log lines the window shows, given the character count of each
    /// line and the window's size: `Some((start, end))` for lines `start` up to
    /// (not including) `end`, or `None` when there is nothing to show.
    ///
    /// The offset is first limited so that the window can scroll back to the
    /// oldest lines and no further: if the first `k` lines are the fewest that
    /// overflow the height, the `k - 1` before them fit, and at most the lines
    /// after those can be scrolled out (see [`scroll_limit`]); the oldest line
    /// then shows at the top. The window shows the latest lines before the
    /// offset that fit in its height, and always at least one.
    pub fn visible_range(&mut self, line_char_counts: &[usize], width: u16, height: u16) -> (r:
        Option<(usize, usize)>)
        requires
            forall|i: int|
                0 <= i < line_char_counts.len() ==> #[trigger] line_char_counts[i] <= isize::MAX,
        ensures
            final(self).logs() == old(self).logs(),
            ({
                let counts = line_char_counts@;
                let n = counts.len() as int;
                let w = width as nat;
                let limit = height as nat;
                if n == 0 || width == 0 || height == 0 {
                    &&& r is None
                    &&& final(self).offset() == old(self).offset()
                } else {
                    &&& (height_of(counts, w, 0, n) <= limit ==> final(self).offset() == 0)
                    &&& (height_of(counts, w, 0, n) > limit ==> exists|k: int|
                        0 < k <= n && height_of(counts, w, 0, k - 1) <= limit < #[trigger] height_of(
                            counts,
                            w,
                            0,
                            k,
                        ) && final(self).offset() == (if old(self).offset() <= scroll_limit(n, k) {
                            old(self).offset() as int
                        } else {
                            scroll_limit(n, k)
                        }))
                    &&& r matches Some((start, end)) && {
                        &&& end == n - final(self).offset()
                        &&& window_from(counts, w, limit, start as int, end as int)
                    }
                }
            }),
    {
        let total_logs = line_char_counts.len();
        if total_logs == 0 || width == 0 || height == 0 {
            return None;
        }
        let w = width as usize;
        let num_lines = height as usize;
        let ghost counts = line_char_counts@;

        let mut max_offset: usize = 0;
        let mut visible: usize = 0;
        let mut i: usize = 0;
        while i < total_logs
            invariant_except_break
                visible == height_of(counts, w as nat, 0, i as int),
                visible <= num_lines,
                max_offset == 0,
            invariant
                total_logs == line_char_counts.len(),
                counts == line_char_counts@,
                w == width,
                w > 0,
                num_lines == height,
                i <= total_logs,
                forall|x: int| 0 <= x < total_logs ==> #[trigger] counts[x] <= isize::MAX,
            ensures
                i == total_logs ==> max_offset == 0 && height_of(counts, w as nat, 0, i as int)
                    <= num_lines,
                i < total_logs ==> max_offset == scroll_limit(total_logs as int, i + 1) && height_of(
                    counts,
                    w as nat,
                    0,
                    i as int,
                ) <= num_lines < height_of(counts, w as nat, 0, i + 1),
            decreases total_logs - i,
        {
            let c = line_char_counts[i];
            proof {
                lemma_lines_for_bounds(c as nat, w as nat);
            }
            let h = c.saturating_sub(1) / w + 1;
            assert(h == lines_for(c as nat, w as nat));
            visible = visible + h;
            if visible > num_lines {
                max_offset = if i >= 1 {
                    total_logs - i
                } else {
                    total_logs - 1
                };
                break;
            }
            i = i + 1;
        }
        let ghost k = (i + 1) as int;
        self.offset = if self.offset < max_offset {
            self.offset
        } else {
            max_offset
        };
        let end_index = total_logs.saturating_sub(self.offset);
        let mut start_index = end_index;
        let mut current_height: usize = 0;
        while start_index > 0
            invariant
                counts == line_char_counts@,
                end_index <= total_logs == line_char_counts.len(),
                w == width,
                w > 0,
                num_lines == height,
                start_index <= end_index,
                current_height == height_of(counts, w as nat, start_index as int, end_index as int),
                start_index == end_index || start_index == end_index - 1 || current_height
                    <= num_lines,
                current_height <= (if start_index == end_index {
                    0
                } else if start_index == end_index - 1 {
                    isize::MAX as int
                } else {
                    num_lines as int
                }),
                forall|x: int| 0 <= x < total_logs ==> #[trigger] counts[x] <= isize::MAX,
            ensures
                start_index <= end_index,
                current_height == height_of(counts, w as nat, start_index as int, end_index as int),
                start_index == end_index || start_index == end_index - 1 || current_height
                    <= num_lines,
                start_index == 0 || (start_index < end_index && height_of(
                    counts,
                    w as nat,
                    start_index - 1,
                    end_index as int,
                ) > num_lines),
            decreases start_index,
        {
            let c = line_char_counts[start_index - 1];
            proof {
                lemma_lines_for_bounds(c as nat, w as nat);
                lemma_height_extend_front(
                    counts,
                    w as nat,
                    start_index as int,
                    end_index as int,
                );
            }
            let h = c.saturating_sub(1) / w + 1;
            assert(h == lines_for(c as nat, w as nat));
            if current_height + h > num_lines && start_index < end_index {
                break;
            }
            current_height = current_height + h;
            start_index = start_index - 1;
        }
        proof {
            let n = total_logs as int;
            if height_of(counts, w as nat, 0, n) <= num_lines {
                if i < total_logs {
                    lemma_height_monotone(counts, w as nat, 0, k, 0, n);
                }
            } else {
                if i == total_logs {
                    assert(false);
                }
                assert(height_of(counts, w as nat, 0, k - 1) <= num_lines);
            }
            if start_index == end_index {
                assert(end_index > 0) by {
                    if end_index == 0 {
                        if i < total_logs {
                            assert(max_offset == scroll_limit(total_logs as int, k));
                        }
                    }
                }
            }
        }
        Some((start_index, end_index))
    }
}

/// With `o` lines scrolled out, the window shows line `j` (it ends after `j`
/// and starts no later than `j`).
pub open spec fn shows_line(counts: Seq<usize>, w: nat, limit: nat, o: int, j: int) -> bool {
    &&& j < counts.len() - o
    &&& forall|start: int| #[trigger] window_from(counts, w, limit, start, counts.len() - o) ==> start <= j
}

/// Every log line can be scrolled into view: for each line `j` there is an
/// offset, no larger than the limit [`Logger::visible_range`] keeps, at which
/// the window shows line `j`.
pub proof fn lemma_every_line_reachable(counts: Seq<usize>, w: nat, limit: nat, k: int, j: int)
    requires
        w > 0,
        limit > 0,
        0 < k <= counts.len(),
        height_of(counts, w, 0, k - 1) <= limit < height_of(counts, w, 0, k),
        0 <= j < counts.len(),
    ensures
        exists|o: int|
            0 <= o <= scroll_limit(counts.len() as int, k) && #[trigger] shows_line(
                counts,
                w,
                limit,
                o,
                j,
            ),
{
    let n = counts.len() as int;
    let cap = scroll_limit(n, k);
    let end_min = n - cap;
    if j + 1 >= end_min {
        let o = n - (j + 1);
        assert forall|start: int| #[trigger] window_from(counts, w, limit, start, n - o) implies start <= j by {}
        assert(shows_line(counts, w, limit, o, j));
    } else {
        assert forall|start: int| #[trigger] window_from(counts, w, limit, start, n - cap) implies start <= j by {
            if start > 0 {
                lemma_height_monotone(counts, w, start - 1, end_min, 0, k - 1);
            }
        }
        assert(0 <= cap <= scroll_limit(n, k));
        assert(shows_line(counts, w, limit, cap, j));
    }
}

/// Scrolling up and then down again returns to the same place, unless the
/// offset was already at its largest.
pub proof fn lemma_scroll_up_then_down(offset: usize)
    requires
        offset < usize::MAX,
    ensures
        ({
            let up = if offset == usize::MAX {
                usize::MAX as int
            } else {
                offset + 1
            };
            (if up == 0 {
                0
            } else {
                up - 1
            }) == offset
        }),
{
}

} // verus!
