//! Splitting one markdown document into ordered, line-addressed chunks.
//!
//! A new chunk opens at a structural heading outside fenced code, or when
//! the accumulating chunk grows past the size threshold outside fenced
//! code; fenced code blocks are never split mid-fence.

use vstd::prelude::*;

use crate::text::char_is_ws;
use crate::text::chars_to_string;
use crate::text::is_ws;
use crate::text::keep_nonws;
use crate::text::spec_trim;
use crate::text::str_to_chars;
use crate::text::trim_chars;

verus! {

/// Size threshold (in characters) past which a chunk is closed.
pub const CHUNK_CHAR_LIMIT: usize = 2000;

/// A chunk of text with its 1-based, inclusive source line range.
pub struct TextChunk {
    pub text: String,
    pub start_line: usize,
    pub end_line: usize,
}

/// Mathematical image of a [`TextChunk`].
pub struct ChunkView {
    pub text: Seq<char>,
    pub start_line: int,
    pub end_line: int,
}

impl View for TextChunk {
    type V = ChunkView;

    open spec fn view(&self) -> ChunkView {
        ChunkView {
            text: self.text@,
            start_line: self.start_line as int,
            end_line: self.end_line as int,
        }
    }
}

pub open spec fn chunk_views(cs: Seq<TextChunk>) -> Seq<ChunkView> {
    cs.map_values(|c: TextChunk| c@)
}

pub open spec fn line_views(ls: Seq<Vec<char>>) -> Seq<Seq<char>> {
    ls.map_values(|l: Vec<char>| l@)
}

/// A carriage return kept before a line feed is dropped from the line.
pub open spec fn strip_cr(l: Seq<char>) -> Seq<char> {
    if l.len() > 0 && l.last() == '\r' {
        l.drop_last()
    } else {
        l
    }
}

/// State of the line splitter after consuming a prefix of the text:
/// finished lines and the partial line being accumulated.
pub open spec fn lines_st(s: Seq<char>, n: int) -> (Seq<Seq<char>>, Seq<char>)
    decreases n,
{
    if n <= 0 {
        (Seq::<Seq<char>>::empty(), Seq::<char>::empty())
    } else {
        let prev = lines_st(s, n - 1);
        if s[n - 1] == '\n' {
            (prev.0.push(strip_cr(prev.1)), Seq::<char>::empty())
        } else {
            (prev.0, prev.1.push(s[n - 1]))
        }
    }
}

/// The lines of a text, as `str::lines` yields them: split at `\n`, a
/// `\r` directly before the `\n` dropped, no empty final line after a
/// trailing terminator.
pub open spec fn spec_lines(s: Seq<char>) -> Seq<Seq<char>> {
    let st = lines_st(s, s.len() as int);
    if st.1.len() > 0 {
        st.0.push(st.1)
    } else {
        st.0
    }
}

/// A line that toggles fenced-code tracking.
pub open spec fn is_fence(l: Seq<char>) -> bool {
    l.len() >= 3 && l[0] == '`' && l[1] == '`' && l[2] == '`'
}

/// A structural heading line.
pub open spec fn is_heading(l: Seq<char>) -> bool {
    l.len() >= 1 && l[0] == '#'
}

/// State of the chunker after consuming a prefix of the lines.
pub struct ChunkSt {
    /// Chunks already closed.
    pub chunks: Seq<ChunkView>,
    /// Text of the chunk being accumulated.
    pub cur: Seq<char>,
    /// 0-based index of the first line of the accumulating chunk.
    pub start: int,
    /// Whether the cursor is inside a fenced code block.
    pub in_code: bool,
}

pub open spec fn chunk_st_init() -> ChunkSt {
    ChunkSt { chunks: Seq::empty(), cur: Seq::empty(), start: 0, in_code: false }
}

/// One step of the chunker on 0-based line `i`, mirroring the scan:
/// fences toggle code tracking; a heading outside code closes the
/// accumulating chunk before the heading line; the line is appended; a
/// chunk past the size threshold outside code is closed after the line.
/// A chunk is only ever closed when its trimmed text is non-empty, so
/// no chunk is ever emitted empty; an accumulation that is still all
/// whitespace keeps growing instead.
pub open spec fn chunk_step(st: ChunkSt, line: Seq<char>, i: int) -> ChunkSt {
    let in_code = if is_fence(line) {
        !st.in_code
    } else {
        st.in_code
    };
    let split = !in_code && is_heading(line) && spec_trim(st.cur).len() > 0;
    let chunks1 = if split {
        st.chunks.push(
            ChunkView { text: spec_trim(st.cur), start_line: st.start + 1, end_line: i },
        )
    } else {
        st.chunks
    };
    let cur1 = if split {
        Seq::<char>::empty()
    } else {
        st.cur
    };
    let start1 = if split {
        i
    } else {
        st.start
    };
    let cur2 = if cur1.len() > 0 {
        cur1.push('\n') + line
    } else {
        line
    };
    if cur2.len() > CHUNK_CHAR_LIMIT && !in_code && spec_trim(cur2).len() > 0 {
        ChunkSt {
            chunks: chunks1.push(
                ChunkView { text: spec_trim(cur2), start_line: start1 + 1, end_line: i + 1 },
            ),
            cur: Seq::empty(),
            start: i + 1,
            in_code,
        }
    } else {
        ChunkSt { chunks: chunks1, cur: cur2, start: start1, in_code }
    }
}

pub open spec fn chunk_st_at(lines: Seq<Seq<char>>, n: int) -> ChunkSt
    decreases n,
{
    if n <= 0 {
        chunk_st_init()
    } else {
        chunk_step(chunk_st_at(lines, n - 1), lines[n - 1], n - 1)
    }
}

/// The chunks of a line sequence: the scan above, with the final
/// accumulated chunk emitted when it trims to something non-empty.
pub open spec fn spec_chunks(lines: Seq<Seq<char>>) -> Seq<ChunkView> {
    let st = chunk_st_at(lines, lines.len() as int);
    if spec_trim(st.cur).len() > 0 {
        st.chunks.push(
            ChunkView {
                text: spec_trim(st.cur),
                start_line: st.start + 1,
                end_line: lines.len() as int,
            },
        )
    } else {
        st.chunks
    }
}

/// The chunks of a document.
pub open spec fn spec_chunk_text(content: Seq<char>) -> Seq<ChunkView> {
    spec_chunks(spec_lines(content))
}

/// The closed chunks cover adjacent, valid line ranges: each range is
/// non-empty, ranges touch without gaps, the first starts at line 1 and
/// the last ends where the accumulating chunk begins.
pub open spec fn ranges_wf(chunks: Seq<ChunkView>, start: int) -> bool {
    &&& forall|i: int|
        0 <= i < chunks.len() ==> (#[trigger] chunks[i]).start_line <= chunks[i].end_line
    &&& forall|i: int|
        0 <= i < chunks.len() - 1 ==> (#[trigger] chunks[i]).end_line + 1 == chunks[i
            + 1].start_line
    &&& chunks.len() > 0 ==> chunks[0].start_line == 1 && chunks[chunks.len() - 1].end_line
        == start
    &&& chunks.len() == 0 ==> start == 0
}

proof fn lemma_chunk_st_ranges(lines: Seq<Seq<char>>, n: int)
    requires
        0 <= n <= lines.len(),
    ensures
        ranges_wf(chunk_st_at(lines, n).chunks, chunk_st_at(lines, n).start),
        0 <= chunk_st_at(lines, n).start <= n,
        chunk_st_at(lines, n).cur.len() > 0 ==> chunk_st_at(lines, n).start < n,
    decreases n,
{
    if n > 0 {
        lemma_chunk_st_ranges(lines, n - 1);
        let st = chunk_st_at(lines, n - 1);
        let st2 = chunk_st_at(lines, n);
        assert(st2 == chunk_step(st, lines[n - 1], n - 1));
        assert forall|i: int|
            0 <= i < st2.chunks.len() implies (#[trigger] st2.chunks[i]).start_line
            <= st2.chunks[i].end_line by {
            if i < st.chunks.len() {
                assert(st2.chunks[i] == st.chunks[i] || (st.chunks.len() < st2.chunks.len()
                    && st2.chunks[i] == st.chunks[i]));
            }
        }
        assert forall|i: int|
            0 <= i < st2.chunks.len() - 1 implies (#[trigger] st2.chunks[i]).end_line + 1
            == st2.chunks[i + 1].start_line by {}
    }
}

/// Chunk coverage: every chunk's 1-based line range is valid
/// (`start_line <= end_line`), consecutive chunks cover adjacent ranges
/// without a gap, the first chunk starts at line 1, and the last ends at
/// or before the last line of the document.
pub proof fn lemma_chunk_coverage(content: Seq<char>)
    ensures
        ({
            let cs = spec_chunk_text(content);
            let n = spec_lines(content).len() as int;
            &&& forall|i: int|
                0 <= i < cs.len() ==> (#[trigger] cs[i]).start_line <= cs[i].end_line
            &&& forall|i: int|
                0 <= i < cs.len() - 1 ==> (#[trigger] cs[i]).end_line + 1 == cs[i + 1].start_line
            &&& cs.len() > 0 ==> cs[0].start_line == 1 && cs[cs.len() - 1].end_line <= n
        }),
{
    let lines = spec_lines(content);
    let n = lines.len() as int;
    lemma_chunk_st_ranges(lines, n);
    let st = chunk_st_at(lines, n);
    if spec_trim(st.cur).len() > 0 {
        assert(st.cur.len() > 0);
    }
}

/// The content characters of the first `n` chunk texts, in order.
pub open spec fn chunks_nonws(cs: Seq<ChunkView>, n: int) -> Seq<char>
    decreases n,
{
    if n <= 0 {
        Seq::<char>::empty()
    } else {
        chunks_nonws(cs, n - 1) + cs[n - 1].text.filter(keep_nonws())
    }
}

/// The content characters of the first `n` lines, in order.
pub open spec fn lines_nonws(lines: Seq<Seq<char>>, n: int) -> Seq<char>
    decreases n,
{
    if n <= 0 {
        Seq::<char>::empty()
    } else {
        lines_nonws(lines, n - 1) + lines[n - 1].filter(keep_nonws())
    }
}

proof fn lemma_chunks_nonws_push(cs: Seq<ChunkView>, x: ChunkView, n: int)
    requires
        0 <= n <= cs.len(),
    ensures
        chunks_nonws(cs.push(x), n) == chunks_nonws(cs, n),
    decreases n,
{
    if n > 0 {
        lemma_chunks_nonws_push(cs, x, n - 1);
        assert(cs.push(x)[n - 1] == cs[n - 1]);
    }
}

proof fn lemma_filter_push(s: Seq<char>, c: char)
    ensures
        s.push(c).filter(keep_nonws()) == if keep_nonws()(c) {
            s.filter(keep_nonws()).push(c)
        } else {
            s.filter(keep_nonws())
        },
{
    reveal(Seq::filter);
    assert(s.push(c).drop_last() =~= s);
}

proof fn lemma_filter_append(a: Seq<char>, b: Seq<char>)
    ensures
        (a + b).filter(keep_nonws()) == a.filter(keep_nonws()) + b.filter(keep_nonws()),
{
    Seq::<char>::filter_distributes_over_add(a, b, keep_nonws());
}

proof fn lemma_chunk_st_nonws(lines: Seq<Seq<char>>, n: int)
    requires
        0 <= n <= lines.len(),
    ensures
        ({
            let st = chunk_st_at(lines, n);
            chunks_nonws(st.chunks, st.chunks.len() as int) + st.cur.filter(keep_nonws())
                == lines_nonws(lines, n)
        }),
    decreases n,
{
    reveal(Seq::filter);
    if n == 0 {
        assert(Seq::<char>::empty().filter(keep_nonws()) =~= Seq::<char>::empty());
        assert(chunks_nonws(chunk_st_init().chunks, 0) + Seq::<char>::empty().filter(keep_nonws())
            =~= Seq::<char>::empty());
    } else {
        lemma_chunk_st_nonws(lines, n - 1);
        let st = chunk_st_at(lines, n - 1);
        let line = lines[n - 1];
        let st2 = chunk_st_at(lines, n);
        let in_code = if is_fence(line) {
            !st.in_code
        } else {
            st.in_code
        };
        let split = !in_code && is_heading(line) && spec_trim(st.cur).len() > 0;
        let chunks1 = if split {
            st.chunks.push(
                ChunkView { text: spec_trim(st.cur), start_line: st.start + 1, end_line: n - 1 },
            )
        } else {
            st.chunks
        };
        let cur1 = if split {
            Seq::<char>::empty()
        } else {
            st.cur
        };
        if split {
            lemma_chunks_nonws_push(
                st.chunks,
                ChunkView { text: spec_trim(st.cur), start_line: st.start + 1, end_line: n - 1 },
                st.chunks.len() as int,
            );
            crate::text::lemma_trim_preserves_nonws(st.cur);
            assert(Seq::<char>::empty().filter(keep_nonws()) =~= Seq::<char>::empty());
            assert(chunks_nonws(chunks1, chunks1.len() as int) + cur1.filter(keep_nonws())
                =~= lines_nonws(lines, n - 1));
        }
        let cur2 = if cur1.len() > 0 {
            cur1.push('\n') + line
        } else {
            line
        };
        if cur1.len() > 0 {
            lemma_filter_push(cur1, '\n');
            lemma_filter_append(cur1.push('\n'), line);
        } else {
            assert(cur1.filter(keep_nonws()) =~= Seq::<char>::empty());
        }
        assert(cur2.filter(keep_nonws()) =~= cur1.filter(keep_nonws()) + line.filter(
            keep_nonws(),
        ));
        assert(chunks_nonws(chunks1, chunks1.len() as int) + cur2.filter(keep_nonws())
            =~= lines_nonws(lines, n));
        if cur2.len() > CHUNK_CHAR_LIMIT && !in_code && spec_trim(cur2).len() > 0 {
            lemma_chunks_nonws_push(st2.chunks.drop_last(), st2.chunks.last(), chunks1.len() as int);
            assert(st2.chunks.drop_last() =~= chunks1);
            crate::text::lemma_trim_preserves_nonws(cur2);
            assert(st2.cur.filter(keep_nonws()) =~= Seq::<char>::empty());
            assert(chunks_nonws(st2.chunks, st2.chunks.len() as int) + st2.cur.filter(keep_nonws())
                =~= lines_nonws(lines, n));
        }
    }
}

proof fn lemma_lines_st_nonws(s: Seq<char>, n: int)
    requires
        0 <= n <= s.len(),
    ensures
        ({
            let st = lines_st(s, n);
            lines_nonws(st.0, st.0.len() as int) + st.1.filter(keep_nonws()) == s.take(n).filter(
                keep_nonws(),
            )
        }),
    decreases n,
{
    reveal(Seq::filter);
    if n == 0 {
        assert(s.take(0) =~= Seq::<char>::empty());
        assert(Seq::<char>::empty().filter(keep_nonws()) =~= Seq::<char>::empty());
        assert(lines_nonws(lines_st(s, 0).0, 0) + Seq::<char>::empty().filter(keep_nonws())
            =~= Seq::<char>::empty());
    } else {
        lemma_lines_st_nonws(s, n - 1);
        let st = lines_st(s, n - 1);
        let c = s[n - 1];
        assert(s.take(n).drop_last() =~= s.take(n - 1));
        assert(s.take(n).last() == c);
        if c == '\n' {
            let done = strip_cr(st.1);
            if st.1.len() > 0 && st.1.last() == '\r' {
                assert(done.filter(keep_nonws()) == st.1.filter(keep_nonws()));
            }
            let st2 = lines_st(s, n);
            assert(st2.0 == st.0.push(done));
            lemma_lines_nonws_push(st.0, done, st.0.len() as int);
            assert(st2.1.filter(keep_nonws()) =~= Seq::<char>::empty());
            assert(lines_nonws(st2.0, st2.0.len() as int) + st2.1.filter(keep_nonws())
                =~= s.take(n).filter(keep_nonws()));
        } else {
            lemma_filter_push(st.1, c);
            assert(lines_nonws(lines_st(s, n).0, lines_st(s, n).0.len() as int) + lines_st(
                s,
                n,
            ).1.filter(keep_nonws()) =~= s.take(n).filter(keep_nonws()));
        }
    }
}

proof fn lemma_lines_nonws_push(ls: Seq<Seq<char>>, x: Seq<char>, n: int)
    requires
        0 <= n <= ls.len(),
    ensures
        lines_nonws(ls.push(x), n) == lines_nonws(ls, n),
    decreases n,
{
    if n > 0 {
        lemma_lines_nonws_push(ls, x, n - 1);
        assert(ls.push(x)[n - 1] == ls[n - 1]);
    }
}

/// Chunk coverage, content part: concatenating the chunk texts in order
/// reconstructs every non-whitespace character of the document, in
/// order; chunking only ever drops whitespace.
pub proof fn lemma_chunk_text_content(content: Seq<char>)
    ensures
        ({
            let cs = spec_chunk_text(content);
            chunks_nonws(cs, cs.len() as int) == content.filter(keep_nonws())
        }),
{
    reveal(Seq::filter);
    let lines = spec_lines(content);
    let n = lines.len() as int;
    lemma_chunk_st_nonws(lines, n);
    let st = chunk_st_at(lines, n);
    let cs = spec_chunk_text(content);
    if spec_trim(st.cur).len() > 0 {
        lemma_chunks_nonws_push(
            st.chunks,
            ChunkView { text: spec_trim(st.cur), start_line: st.start + 1, end_line: n },
            st.chunks.len() as int,
        );
        crate::text::lemma_trim_preserves_nonws(st.cur);
        assert(chunks_nonws(cs, cs.len() as int) =~= lines_nonws(lines, n));
    } else {
        crate::text::lemma_trim_empty_no_content(st.cur);
        assert(chunks_nonws(cs, cs.len() as int) + Seq::<char>::empty() =~= chunks_nonws(
            cs,
            cs.len() as int,
        ));
        assert(chunks_nonws(cs, cs.len() as int) =~= lines_nonws(lines, n));
    }
    lemma_lines_st_nonws(content, content.len() as int);
    let lst = lines_st(content, content.len() as int);
    assert(content.take(content.len() as int) =~= content);
    if lst.1.len() > 0 {
        lemma_lines_nonws_push(lst.0, lst.1, lst.0.len() as int);
        assert(lines_nonws(lines, n) =~= content.filter(keep_nonws()));
    } else {
        assert(lst.1.filter(keep_nonws()) =~= Seq::<char>::empty());
        assert(lines_nonws(lines, n) =~= content.filter(keep_nonws()));
    }
}

proof fn lemma_chunk_st_texts(lines: Seq<Seq<char>>, n: int)
    requires
        0 <= n <= lines.len(),
    ensures
        forall|i: int|
            0 <= i < chunk_st_at(lines, n).chunks.len() ==> (#[trigger] chunk_st_at(
                lines,
                n,
            ).chunks[i]).text.len() > 0 && chunk_st_at(lines, n).chunks[i].text == spec_trim(
                chunk_st_at(lines, n).chunks[i].text,
            ),
    decreases n,
{
    if n > 0 {
        lemma_chunk_st_texts(lines, n - 1);
        let st = chunk_st_at(lines, n - 1);
        let st2 = chunk_st_at(lines, n);
        crate::text::lemma_trim_idempotent(st.cur);
        let line = lines[n - 1];
        let in_code = if is_fence(line) {
            !st.in_code
        } else {
            st.in_code
        };
        let split = !in_code && is_heading(line) && spec_trim(st.cur).len() > 0;
        let cur1 = if split {
            Seq::<char>::empty()
        } else {
            st.cur
        };
        let cur2 = if cur1.len() > 0 {
            cur1.push('\n') + line
        } else {
            line
        };
        crate::text::lemma_trim_idempotent(cur2);
        assert forall|i: int| 0 <= i < st2.chunks.len() implies (#[trigger] st2.chunks[i]).text.len()
            > 0 && st2.chunks[i].text == spec_trim(st2.chunks[i].text) by {
            if i < st.chunks.len() {
                assert(st2.chunks[i] == st.chunks[i]);
            }
        }
    }
}

/// Every emitted chunk is non-empty, and its text carries no leading or
/// trailing whitespace: it is exactly its own trimmed form. In
/// particular an empty or whitespace-only document, of any length,
/// yields zero chunks.
pub proof fn lemma_chunks_nonempty_trimmed(content: Seq<char>)
    ensures
        forall|i: int|
            0 <= i < spec_chunk_text(content).len() ==> (#[trigger] spec_chunk_text(
                content,
            )[i]).text.len() > 0 && spec_chunk_text(content)[i].text == spec_trim(
                spec_chunk_text(content)[i].text,
            ),
{
    let lines = spec_lines(content);
    let n = lines.len() as int;
    lemma_chunk_st_texts(lines, n);
    let st = chunk_st_at(lines, n);
    crate::text::lemma_trim_idempotent(st.cur);
    let cs = spec_chunk_text(content);
    assert forall|i: int| 0 <= i < cs.len() implies (#[trigger] cs[i]).text.len() > 0 && cs[i].text
        == spec_trim(cs[i].text) by {
        if i < st.chunks.len() {
            assert(cs[i] == st.chunks[i]);
        }
    }
}

/// Code-block integrity: a line inside a fenced code block that does
/// not itself toggle the fence never closes a chunk, whatever size the
/// accumulating chunk has reached.
pub proof fn lemma_code_line_closes_no_chunk(lines: Seq<Seq<char>>, i: int)
    requires
        0 <= i < lines.len(),
        chunk_st_at(lines, i).in_code,
        !is_fence(lines[i]),
    ensures
        chunk_st_at(lines, i + 1).chunks == chunk_st_at(lines, i).chunks,
        chunk_st_at(lines, i + 1).start == chunk_st_at(lines, i).start,
        chunk_st_at(lines, i + 1).in_code,
{
}

/// Code-block integrity at the fences: an opening fence line never
/// closes a chunk, and a chunk closed at a closing fence line ends only
/// after that line, so a fenced block always sits whole in one chunk.
pub proof fn lemma_fence_line_keeps_block(lines: Seq<Seq<char>>, i: int)
    requires
        0 <= i < lines.len(),
        is_fence(lines[i]),
    ensures
        !chunk_st_at(lines, i).in_code ==> chunk_st_at(lines, i + 1).chunks == chunk_st_at(
            lines,
            i,
        ).chunks && chunk_st_at(lines, i + 1).start == chunk_st_at(lines, i).start,
        chunk_st_at(lines, i).in_code ==> (chunk_st_at(lines, i + 1).chunks == chunk_st_at(
            lines,
            i,
        ).chunks || (chunk_st_at(lines, i + 1).chunks == chunk_st_at(lines, i).chunks.push(
            chunk_st_at(lines, i + 1).chunks.last(),
        ) && chunk_st_at(lines, i + 1).chunks.last().end_line == i + 1)),
{
    assert(!is_heading(lines[i]));
}

proof fn lemma_ends_bounded(chunks: Seq<ChunkView>, start: int, m: int)
    requires
        ranges_wf(chunks, start),
        0 <= m < chunks.len(),
    ensures
        chunks[m].end_line <= start,
    decreases chunks.len() - m,
{
    if m < chunks.len() - 1 {
        lemma_ends_bounded(chunks, start, m + 1);
        assert(chunks[m].end_line + 1 == chunks[m + 1].start_line);
        assert(chunks[m + 1].start_line <= chunks[m + 1].end_line);
    }
}

proof fn lemma_block_state(lines: Seq<Seq<char>>, a: int, t: int)
    requires
        0 <= a < t <= lines.len(),
        !chunk_st_at(lines, a).in_code,
        is_fence(lines[a]),
        forall|x: int| a < x < t ==> !is_fence(#[trigger] lines[x]),
    ensures
        chunk_st_at(lines, t).in_code,
        chunk_st_at(lines, t).chunks == chunk_st_at(lines, a).chunks,
    decreases t,
{
    if t == a + 1 {
        assert(!is_heading(lines[a]));
    } else {
        lemma_block_state(lines, a, t - 1);
        lemma_code_line_closes_no_chunk(lines, t - 1);
    }
}

proof fn lemma_ends_after(lines: Seq<Seq<char>>, aa: int, lo: int, t: int)
    requires
        0 <= lo <= t <= lines.len(),
        forall|i: int|
            0 <= i < chunk_st_at(lines, lo).chunks.len() ==> (#[trigger] chunk_st_at(
                lines,
                lo,
            ).chunks[i]).end_line <= aa || chunk_st_at(lines, lo).chunks[i].end_line >= lo,
    ensures
        forall|i: int|
            0 <= i < chunk_st_at(lines, t).chunks.len() ==> (#[trigger] chunk_st_at(
                lines,
                t,
            ).chunks[i]).end_line <= aa || chunk_st_at(lines, t).chunks[i].end_line >= lo,
    decreases t,
{
    if t > lo {
        lemma_ends_after(lines, aa, lo, t - 1);
        let st = chunk_st_at(lines, t - 1);
        let st2 = chunk_st_at(lines, t);
        assert forall|i: int|
            0 <= i < st2.chunks.len() implies (#[trigger] st2.chunks[i]).end_line <= aa
            || st2.chunks[i].end_line >= lo by {
            if i < st.chunks.len() {
                assert(st2.chunks[i] == st.chunks[i]);
            } else {
                assert(st2.chunks[i].end_line == t - 1 || st2.chunks[i].end_line == t);
            }
        }
    }
}

/// Code-block integrity, end to end: a fenced code block — the lines
/// from its opening fence through its closing fence — lies whole inside
/// one chunk, whatever its length: no chunk ends at a 1-based line
/// between `a + 1` and `b` (0-based lines `a` and `b` being the two
/// fences), so no boundary falls inside the block.
pub proof fn lemma_code_block_in_one_chunk(content: Seq<char>, a: int, b: int)
    requires
        0 <= a < b < spec_lines(content).len(),
        !chunk_st_at(spec_lines(content), a).in_code,
        is_fence(spec_lines(content)[a]),
        is_fence(spec_lines(content)[b]),
        forall|x: int| a < x < b ==> !is_fence(#[trigger] spec_lines(content)[x]),
    ensures
        forall|i: int|
            0 <= i < spec_chunk_text(content).len() ==> (#[trigger] spec_chunk_text(
                content,
            )[i]).end_line <= a || spec_chunk_text(content)[i].end_line >= b + 1,
{
    let lines = spec_lines(content);
    let n = lines.len() as int;
    lemma_block_state(lines, a, b);
    lemma_chunk_st_ranges(lines, a);
    lemma_fence_line_keeps_block(lines, b);
    let sta = chunk_st_at(lines, a);
    let stb1 = chunk_st_at(lines, b + 1);
    assert forall|i: int|
        0 <= i < stb1.chunks.len() implies (#[trigger] stb1.chunks[i]).end_line <= a
        || stb1.chunks[i].end_line >= b + 1 by {
        if i < sta.chunks.len() {
            assert(stb1.chunks[i] == sta.chunks[i]);
            lemma_ends_bounded(sta.chunks, sta.start, i);
        } else {
            assert(stb1.chunks[i].end_line == b + 1);
        }
    }
    lemma_ends_after(lines, a, b + 1, n);
    let stn = chunk_st_at(lines, n);
    let cs = spec_chunk_text(content);
    assert forall|i: int|
        0 <= i < cs.len() implies (#[trigger] cs[i]).end_line <= a || cs[i].end_line >= b
        + 1 by {
        if i < stn.chunks.len() {
            assert(cs[i] == stn.chunks[i]);
        } else {
            assert(cs[i].end_line == n);
        }
    }
}

/// Splits a document into its lines.
pub fn split_lines(content: &str) -> (r: Vec<Vec<char>>)
    ensures
        line_views(r@) == spec_lines(content@),
{
    let chars = str_to_chars(content);
    let mut lines: Vec<Vec<char>> = Vec::new();
    let mut cur: Vec<char> = Vec::new();
    let mut i: usize = 0;
    while i < chars.len()
        invariant
            i <= chars.len(),
            chars@ == content@,
            line_views(lines@) == lines_st(content@, i as int).0,
            cur@ == lines_st(content@, i as int).1,
        decreases chars.len() - i,
    {
        let c = chars[i];
        if c == '\n' {
            if cur.len() > 0 && cur[cur.len() - 1] == '\r' {
                let _ = cur.pop();
            }
            proof {
                assert(cur@ =~= strip_cr(lines_st(content@, i as int).1));
            }
            let ghost prev_views = line_views(lines@);
            lines.push(cur);
            proof {
                assert(line_views(lines@) =~= prev_views.push(
                    strip_cr(lines_st(content@, i as int).1),
                ));
            }
            cur = Vec::new();
        } else {
            cur.push(c);
        }
        i = i + 1;
    }
    if cur.len() > 0 {
        let ghost prev_views = line_views(lines@);
        let ghost last = cur@;
        lines.push(cur);
        proof {
            assert(line_views(lines@) =~= prev_views.push(last));
        }
    }
    lines
}

/// Appends a line to the accumulating chunk text, separated by a line
/// feed when the chunk is not empty.
fn append_line(cur: &mut Vec<char>, line: &Vec<char>)
    ensures
        final(cur)@ == if old(cur)@.len() > 0 {
            old(cur)@.push('\n') + line@
        } else {
            line@
        },
{
    if cur.len() > 0 {
        cur.push('\n');
        let mut j: usize = 0;
        while j < line.len()
            invariant
                j <= line.len(),
                cur@ == old(cur)@.push('\n') + line@.take(j as int),
            decreases line.len() - j,
        {
            cur.push(line[j]);
            proof {
                assert(old(cur)@.push('\n') + line@.take(j as int) + seq![line@[j as int]]
                    =~= old(cur)@.push('\n') + line@.take(j as int + 1));
            }
            j = j + 1;
        }
        proof {
            assert(line@.take(line@.len() as int) =~= line@);
        }
    } else {
        let mut j: usize = 0;
        while j < line.len()
            invariant
                j <= line.len(),
                old(cur)@.len() == 0,
                cur@ == line@.take(j as int),
            decreases line.len() - j,
        {
            cur.push(line[j]);
            proof {
                assert(line@.take(j as int).push(line@[j as int]) =~= line@.take(j as int + 1));
            }
            j = j + 1;
        }
        proof {
            assert(line@.take(line@.len() as int) =~= line@);
        }
    }
}

fn line_is_fence(line: &Vec<char>) -> (r: bool)
    ensures
        r == is_fence(line@),
{
    line.len() >= 3 && line[0] == '`' && line[1] == '`' && line[2] == '`'
}

fn line_is_heading(line: &Vec<char>) -> (r: bool)
    ensures
        r == is_heading(line@),
{
    line.len() >= 1 && line[0] == '#'
}

/// Splits a document into chunks for embedding: one heading section per
/// chunk, bounded in size, fenced code never split.
pub fn chunk_text(content: &str) -> (r: Vec<TextChunk>)
    ensures
        chunk_views(r@) == spec_chunk_text(content@),
{
    let lines = split_lines(content);
    let ghost lviews = line_views(lines@);
    let mut chunks: Vec<TextChunk> = Vec::new();
    let mut cur: Vec<char> = Vec::new();
    let mut chunk_start: usize = 0;
    let mut in_code: bool = false;
    let mut i: usize = 0;
    while i < lines.len()
        invariant
            i <= lines.len(),
            lviews == line_views(lines@),
            lviews == spec_lines(content@),
            chunk_views(chunks@) == chunk_st_at(lviews, i as int).chunks,
            cur@ == chunk_st_at(lviews, i as int).cur,
            chunk_start as int == chunk_st_at(lviews, i as int).start,
            in_code == chunk_st_at(lviews, i as int).in_code,
            chunk_start <= i,
            cur@.len() > 0 ==> chunk_start < i,
        decreases lines.len() - i,
    {
        let ghost st = chunk_st_at(lviews, i as int);
        let line = &lines[i];
        proof {
            assert(line@ == lviews[i as int]);
        }
        if line_is_fence(line) {
            in_code = !in_code;
        }
        let is_header = !in_code && line_is_heading(line);
        if is_header {
            let text = trim_chars(&cur);
            if text.len() > 0 {
                let ghost prev_views = chunk_views(chunks@);
                chunks.push(
                    TextChunk {
                        text: chars_to_string(&text),
                        start_line: chunk_start + 1,
                        end_line: i,
                    },
                );
                proof {
                    assert(chunk_views(chunks@) =~= prev_views.push(
                        ChunkView {
                            text: spec_trim(st.cur),
                            start_line: st.start + 1,
                            end_line: i as int,
                        },
                    ));
                }
                cur = Vec::new();
                chunk_start = i;
            }
        }
        append_line(&mut cur, line);
        if cur.len() > CHUNK_CHAR_LIMIT && !in_code {
            let text = trim_chars(&cur);
            if text.len() > 0 {
                let ghost prev_views = chunk_views(chunks@);
                let ghost cur2 = cur@;
                chunks.push(
                    TextChunk {
                        text: chars_to_string(&text),
                        start_line: chunk_start + 1,
                        end_line: i + 1,
                    },
                );
                proof {
                    assert(chunk_views(chunks@) =~= prev_views.push(
                        ChunkView {
                            text: spec_trim(cur2),
                            start_line: chunk_start as int + 1,
                            end_line: i as int + 1,
                        },
                    ));
                }
                cur = Vec::new();
                chunk_start = i + 1;
            }
        }
        proof {
            assert(chunk_st_at(lviews, i as int + 1) == chunk_step(st, lviews[i as int], i as int));
        }
        i = i + 1;
    }
    let text = trim_chars(&cur);
    if text.len() > 0 {
        let ghost prev_views = chunk_views(chunks@);
        chunks.push(
            TextChunk {
                text: chars_to_string(&text),
                start_line: chunk_start + 1,
                end_line: lines.len(),
            },
        );
        proof {
            assert(chunk_views(chunks@) =~= prev_views.push(
                ChunkView {
                    text: spec_trim(chunk_st_at(lviews, lviews.len() as int).cur),
                    start_line: chunk_st_at(lviews, lviews.len() as int).start + 1,
                    end_line: lviews.len() as int,
                },
            ));
        }
    }
    chunks
}

} // verus!
