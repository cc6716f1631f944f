//! The statistics of a byte buffer: lines, words, bytes and characters.

use vstd::prelude::*;

use crate::decode::{decode_lossy, lemma_decode_len, next_unit};

verus! {

/// Which statistics a report shows.
#[derive(Debug, Clone, Copy, PartialEq, Eq, Structural)]
pub enum CountMode {
    All,
    Lines,
    Words,
    Bytes,
    Chars,
}

/// The four counts of one buffer.
#[derive(Debug, Clone, Copy, PartialEq, Eq, Structural)]
pub struct FileStats {
    pub lines: usize,
    pub words: usize,
    pub bytes: usize,
    pub chars: usize,
}

/// The line feed, U+000A.
pub const LINE_FEED: u32 = 0x0A;

/// Unicode's White_Space code points.
pub open spec fn white_space(c: u32) -> bool {
    ||| 0x09 <= c <= 0x0D
    ||| c == 0x20
    ||| c == 0x85
    ||| c == 0xA0
    ||| c == 0x1680
    ||| 0x2000 <= c <= 0x200A
    ||| c == 0x2028
    ||| c == 0x2029
    ||| c == 0x202F
    ||| c == 0x205F
    ||| c == 0x3000
}

/// The number of line feeds in `t`.
pub open spec fn newline_count(t: Seq<u32>) -> nat
    decreases t.len(),
{
    if t.len() == 0 {
        0
    } else {
        newline_count(t.drop_last()) + if t.last() == LINE_FEED {
            1nat
        } else {
            0nat
        }
    }
}

/// The number of lines of `t`: the pieces between line feeds, where a final
/// line feed closes the last line rather than opening an empty one.
pub open spec fn line_count(t: Seq<u32>) -> nat {
    if t.len() == 0 {
        0
    } else if t.last() == LINE_FEED {
        newline_count(t)
    } else {
        newline_count(t) + 1
    }
}

/// Whether a word begins at `t[i]`: a non-space that starts `t` or follows a space.
pub open spec fn starts_word(t: Seq<u32>, i: int) -> bool {
    !white_space(t[i]) && (i == 0 || white_space(t[i - 1]))
}

/// The number of words of `t`, maximal runs of non-space scalars.
pub open spec fn word_count(t: Seq<u32>) -> nat
    decreases t.len(),
{
    if t.len() == 0 {
        0
    } else {
        word_count(t.drop_last()) + if starts_word(t, t.len() - 1) {
            1nat
        } else {
            0nat
        }
    }
}

/// The statistics of the buffer `b`.
pub open spec fn stats_of(b: Seq<u8>) -> FileStats {
    let t = decode_lossy(b);
    FileStats {
        lines: line_count(t) as usize,
        words: word_count(t) as usize,
        bytes: b.len() as usize,
        chars: t.len() as usize,
    }
}

/// Whether `c` is one of Unicode's White_Space code points.
pub fn is_white_space(c: u32) -> (r: bool)
    ensures
        r == white_space(c),
{
    (0x09 <= c && c <= 0x0D) || c == 0x20 || c == 0x85 || c == 0xA0 || c == 0x1680 || (0x2000 <= c
        && c <= 0x200A) || c == 0x2028 || c == 0x2029 || c == 0x202F || c == 0x205F || c == 0x3000
}

impl FileStats {
    /// Counts the lines, words, bytes and characters of `bytes`, decoded as
    /// UTF-8 with each ill-formed part read as U+FFFD.
    pub fn from_bytes(bytes: &[u8]) -> (r: FileStats)
        ensures
            r == stats_of(bytes@),
            r.bytes == bytes@.len(),
            r.chars == decode_lossy(bytes@).len(),
            r.lines == line_count(decode_lossy(bytes@)),
            r.words == word_count(decode_lossy(bytes@)),
            r.chars <= r.bytes,
    {
        let ghost b = bytes@;
        let len = bytes.len();
        let mut i: usize = 0;
        let mut chars: usize = 0;
        let mut newlines: usize = 0;
        let mut words: usize = 0;
        let mut last: u32 = 0;
        let ghost mut seen: Seq<u32> = seq![];
        proof {
            assert(b.subrange(0, len as int) =~= b);
        }
        while i < len
            invariant
                len == b.len(),
                b == bytes@,
                i <= len,
                seen.len() == chars,
                chars <= i,
                newlines <= chars,
                words <= chars,
                decode_lossy(b) == seen + decode_lossy(b.subrange(i as int, len as int)),
                newlines == newline_count(seen),
                words == word_count(seen),
                chars > 0 ==> last == seen.last(),
                chars > 0 && last != LINE_FEED ==> newlines < chars,
            decreases len - i,
        {
            let (n, c) = next_unit(bytes, i);
            let ghost rest = b.subrange(i as int, len as int);
            proof {
                assert(rest.subrange(n as int, rest.len() as int) =~= b.subrange(
                    i + n,
                    len as int,
                ));
                let tail = decode_lossy(b.subrange(i + n, len as int));
                assert(decode_lossy(rest) == seq![c] + tail);
                assert(seen + (seq![c] + tail) =~= seen.push(c) + tail);
                assert(seen.push(c).drop_last() =~= seen);
            }
            let is_start = !is_white_space(c) && (chars == 0 || is_white_space(last));
            if c == LINE_FEED {
                newlines = newlines + 1;
            }
            if is_start {
                words = words + 1;
            }
            proof {
                seen = seen.push(c);
            }
            chars = chars + 1;
            last = c;
            i = i + n;
        }
        proof {
            assert(b.subrange(len as int, len as int) =~= Seq::<u8>::empty());
            assert(seen + Seq::<u32>::empty() =~= seen);
            lemma_decode_len(b);
        }
        let lines = if chars == 0 {
            0
        } else if last == LINE_FEED {
            newlines
        } else {
            newlines + 1
        };
        FileStats { lines, words, bytes: len, chars }
    }
}

/// Counting is a function of the buffer alone: equal buffers give equal
/// statistics, so counting the same buffer twice gives the same result.
pub proof fn lemma_stats_deterministic(a: Seq<u8>, b: Seq<u8>)
    requires
        a == b,
    ensures
        stats_of(a) == stats_of(b),
{
}

/// A buffer never holds more characters than bytes.
pub proof fn lemma_chars_at_most_bytes(b: Seq<u8>)
    requires
        b.len() <= usize::MAX,
    ensures
        stats_of(b).chars <= stats_of(b).bytes,
        stats_of(b).bytes == b.len(),
{
    lemma_decode_len(b);
}

} // verus!
