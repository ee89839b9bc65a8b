//! User settings that the semantic search core reacts to.

use vstd::prelude::*;

verus! {

/// A user-configured extension that processes clipboard content via an
/// external command.
#[derive(Clone, Debug)]
pub struct Extension {
    pub name: String,
    pub command: String,
    /// -1 waits forever, 0 does not wait, a positive value is a limit in ms.
    pub timeout: i64,
    pub close_on_success: bool,
}

/// Remembers whether semantic search was enabled at the last settings
/// load, to notice when it gets switched on.
#[derive(Clone, Copy, Debug, PartialEq, Eq, Structural)]
pub struct SemanticTracker {
    pub prev_enabled: bool,
}

/// A tracker starting from the enabled state found at start-up.
pub fn init_semantic_tracker(enabled: bool) -> (r: SemanticTracker)
    ensures
        r.prev_enabled == enabled,
{
    SemanticTracker { prev_enabled: enabled }
}

impl SemanticTracker {
    /// Takes in the enabled state of a fresh settings load and returns
    /// whether it switched from off to on since the previous one.
    pub fn check_semantic_enabled_transition(&mut self, new_enabled: bool) -> (r: bool)
        ensures
            r == (!old(self).prev_enabled && new_enabled),
            final(self).prev_enabled == new_enabled,
    {
        let prev = self.prev_enabled;
        self.prev_enabled = new_enabled;
        !prev && new_enabled
    }
}

/// The runs of `s` between newline characters: one more than there are
/// newlines, the last one not followed by a newline.
pub open spec fn segments(s: Seq<char>) -> Seq<Seq<char>>
    decreases s.len(),
{
    if s.len() == 0 {
        seq![Seq::<char>::empty()]
    } else if s.last() == '\n' {
        segments(s.drop_last()).push(Seq::<char>::empty())
    } else {
        let p = segments(s.drop_last());
        p.update(p.len() - 1, p.last().push(s.last()))
    }
}

/// A line ended by a newline loses a carriage return before it.
pub open spec fn without_cr(l: Seq<char>) -> Seq<char> {
    if l.len() > 0 && l.last() == '\r' {
        l.drop_last()
    } else {
        l
    }
}

/// The lines of `s` as `str::lines` yields them: each newline ends a line
/// (dropping a carriage return just before it), and a last line without
/// newline counts only when it is not empty.
pub open spec fn text_lines(s: Seq<char>) -> Seq<Seq<char>> {
    let segs = segments(s);
    let done = segs.drop_last().map_values(|l: Seq<char>| without_cr(l));
    if segs.last().len() > 0 {
        done.push(segs.last())
    } else {
        done
    }
}

/// Unicode white space, as `char::is_whitespace` defines it.
pub open spec fn is_ws(c: char) -> bool {
    let u = c as u32;
    (0x09 <= u && u <= 0x0D) || u == 0x20 || u == 0x85 || u == 0xA0 || u == 0x1680 || (0x2000 <= u
        && u <= 0x200A) || u == 0x2028 || u == 0x2029 || u == 0x202F || u == 0x205F || u == 0x3000
}

/// Whether a line, once leading white space is skipped, starts with `//`.
pub open spec fn comment_line(l: Seq<char>) -> bool
    decreases l.len(),
{
    if l.len() == 0 {
        false
    } else if is_ws(l[0]) {
        comment_line(l.drop_first())
    } else {
        l.len() >= 2 && l[0] == '/' && l[1] == '/'
    }
}

/// Whether some line of `ls` is not a comment.
pub open spec fn any_kept(ls: Seq<Seq<char>>) -> bool
    decreases ls.len(),
{
    if ls.len() == 0 {
        false
    } else {
        any_kept(ls.drop_last()) || !comment_line(ls.last())
    }
}

/// The lines of `ls` that are not comments, joined by newlines.
pub open spec fn kept_joined(ls: Seq<Seq<char>>) -> Seq<char>
    decreases ls.len(),
{
    if ls.len() == 0 {
        Seq::empty()
    } else {
        let p = kept_joined(ls.drop_last());
        let l = ls.last();
        if comment_line(l) {
            p
        } else if any_kept(ls.drop_last()) {
            p + seq!['\n'] + l
        } else {
            l
        }
    }
}

/// Whether `c` is white space (see `is_ws`).
fn is_whitespace_char(c: char) -> (r: bool)
    ensures
        r == is_ws(c),
{
    let u = c as u32;
    (0x09 <= u && u <= 0x0D) || u == 0x20 || u == 0x85 || u == 0xA0 || u == 0x1680 || (0x2000 <= u
        && u <= 0x200A) || u == 0x2028 || u == 0x2029 || u == 0x202F || u == 0x205F || u == 0x3000
}

proof fn lemma_comment_suffix(l: Seq<char>, k: int)
    requires
        0 <= k <= l.len(),
        forall|j: int| 0 <= j < k ==> is_ws(#[trigger] l[j]),
    ensures
        comment_line(l) == comment_line(l.subrange(k, l.len() as int)),
    decreases k,
{
    if k == 0 {
        assert(l.subrange(0, l.len() as int) =~= l);
    } else {
        let t = l.drop_first();
        assert(is_ws(l[0]));
        assert(comment_line(l) == comment_line(t));
        assert forall|j: int| 0 <= j < k - 1 implies is_ws(#[trigger] t[j]) by {
            assert(t[j] == l[j + 1]);
        }
        lemma_comment_suffix(t, k - 1);
        assert(t.subrange(k - 1, t.len() as int) =~= l.subrange(k, l.len() as int));
    }
}

/// Whether a line is a comment (see `comment_line`).
fn is_comment_line(l: &Vec<char>) -> (r: bool)
    ensures
        r == comment_line(l@),
{
    let mut k: usize = 0;
    while k < l.len() && is_whitespace_char(l[k])
        invariant
            0 <= k <= l@.len(),
            forall|j: int| 0 <= j < k ==> is_ws(#[trigger] l@[j]),
        decreases l@.len() - k,
    {
        k = k + 1;
    }
    proof {
        lemma_comment_suffix(l@, k as int);
    }
    let rest_len = l.len() - k;
    let r = rest_len >= 2 && l[k] == '/' && l[k + 1] == '/';
    proof {
        let rest = l@.subrange(k as int, l@.len() as int);
        if rest.len() > 0 {
            assert(rest[0] == l@[k as int]);
            assert(!is_ws(rest[0]));
            if rest.len() >= 2 {
                assert(rest[1] == l@[k + 1]);
            }
        }
    }
    r
}

/// Relies on `String::from_iter` over characters: the string holding them.
#[verifier::external_body]
fn string_from_chars(v: &Vec<char>) -> (r: String)
    ensures
        r@ == v@,
{
    String::from_iter(v.iter())
}

/// Appends a line to the joined output of the lines kept so far.
fn emit_line(out: &mut Vec<char>, any: &mut bool, line: &Vec<char>, ls: Ghost<Seq<Seq<char>>>)
    requires
        old(out)@ == kept_joined(ls@),
        *old(any) == any_kept(ls@),
    ensures
        final(out)@ == kept_joined(ls@.push(line@)),
        *final(any) == any_kept(ls@.push(line@)),
{
    proof {
        assert(ls@.push(line@).drop_last() =~= ls@);
    }
    if !is_comment_line(line) {
        if *any {
            out.push('\n');
        }
        let mut j: usize = 0;
        let ghost base = out@;
        while j < line.len()
            invariant
                0 <= j <= line@.len(),
                out@ == base + line@.take(j as int),
            decreases line@.len() - j,
        {
            out.push(line[j]);
            proof {
                assert(out@ =~= base + line@.take(j + 1));
            }
            j = j + 1;
        }
        proof {
            assert(line@.take(line@.len() as int) =~= line@);
            if old(any)@ {
                assert(base == kept_joined(ls@) + seq!['\n']);
            } else {
                assert(kept_joined(ls@) == Seq::<char>::empty()) by {
                    lemma_nothing_kept(ls@);
                }
                assert(base =~= Seq::<char>::empty());
            }
            assert(out@ =~= (if old(any)@ { kept_joined(ls@) + seq!['\n'] + line@ } else { line@ }));
        }
        *any = true;
    }
}

proof fn lemma_nothing_kept(ls: Seq<Seq<char>>)
    requires
        !any_kept(ls),
    ensures
        kept_joined(ls) == Seq::<char>::empty(),
    decreases ls.len(),
{
    if ls.len() > 0 {
        lemma_nothing_kept(ls.drop_last());
    }
}

/// The settings text with its comment lines left out: the lines of
/// `content` (as `str::lines` splits them) whose first non-blank characters
/// are not `//`, joined by newlines.
pub fn strip_comments(content: &str) -> (r: String)
    ensures
        r@ == kept_joined(text_lines(content@)),
{
    let n = content.unicode_len();
    let mut out: Vec<char> = Vec::new();
    let mut any = false;
    let mut cur: Vec<char> = Vec::new();
    let mut i: usize = 0;
    while i < n
        invariant
            n == content@.len(),
            0 <= i <= n,
            cur@ == segments(content@.take(i as int)).last(),
            out@ == kept_joined(
                segments(content@.take(i as int)).drop_last().map_values(|l: Seq<char>| without_cr(l)),
            ),
            any == any_kept(
                segments(content@.take(i as int)).drop_last().map_values(|l: Seq<char>| without_cr(l)),
            ),
        decreases n - i,
    {
        let c = content.get_char(i);
        let ghost pre = content@.take(i as int);
        let ghost post = content@.take(i + 1);
        proof {
            assert(post.drop_last() =~= pre);
            assert(post.last() == c);
        }
        if c == '\n' {
            let mut line = cur;
            if line.len() > 0 && line[line.len() - 1] == '\r' {
                line.pop();
            }
            let ghost done = segments(pre).drop_last().map_values(|l: Seq<char>| without_cr(l));
            emit_line(&mut out, &mut any, &line, Ghost(done));
            cur = Vec::new();
            proof {
                let segs = segments(pre);
                assert(segments(post) == segs.push(Seq::<char>::empty()));
                assert(segments(post).drop_last() =~= segs);
                assert(segs.len() >= 1) by {
                    lemma_segments_nonempty(pre);
                }
                assert(segs.map_values(|l: Seq<char>| without_cr(l)) =~= done.push(without_cr(segs.last())));
                assert(line@ == without_cr(segs.last()));
            }
        } else {
            cur.push(c);
            proof {
                let segs = segments(pre);
                lemma_segments_nonempty(pre);
                let p2 = segs.update(segs.len() - 1, segs.last().push(c));
                assert(segments(post) == p2);
                assert(p2.drop_last() =~= segs.drop_last());
            }
        }
        i = i + 1;
    }
    proof {
        assert(content@.take(n as int) =~= content@);
        lemma_segments_nonempty(content@);
    }
    if cur.len() > 0 {
        let ghost done = segments(content@).drop_last().map_values(|l: Seq<char>| without_cr(l));
        emit_line(&mut out, &mut any, &cur, Ghost(done));
    }
    string_from_chars(&out)
}

proof fn lemma_segments_nonempty(s: Seq<char>)
    ensures
        segments(s).len() >= 1,
    decreases s.len(),
{
    if s.len() > 0 {
        lemma_segments_nonempty(s.drop_last());
    }
}

} // verus!
