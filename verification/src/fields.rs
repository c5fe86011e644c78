//! Splitting byte sequences into fields: whitespace-separated tokens for the
//! request line, and slash-separated segments for the request-target.
//! Empty fields are dropped, so repeated separators never produce one.
use vstd::prelude::*;

verus! {

/// ASCII whitespace, as the request-line tokenizer understands it.
pub open spec fn is_ws(b: u8) -> bool {
    b == 32 || 9 <= b <= 13
}

pub open spec fn ws_pred() -> spec_fn(u8) -> bool {
    |b: u8| is_ws(b)
}

pub open spec fn slash_pred() -> spec_fn(u8) -> bool {
    |b: u8| b == 47
}

/// The pending field, emitted only if it is non-empty.
pub open spec fn opt_field(cur: Seq<u8>) -> Seq<Seq<u8>> {
    if cur.len() > 0 {
        seq![cur]
    } else {
        Seq::empty()
    }
}

/// Fields of `s` from position `i` on, with `cur` the partial field read so
/// far; a byte satisfying `sep` ends the current field, and empty fields are
/// dropped.
pub open spec fn fields_from(s: Seq<u8>, i: int, cur: Seq<u8>, sep: spec_fn(u8) -> bool) -> Seq<
    Seq<u8>,
>
    decreases s.len() - i,
{
    if i < 0 || i >= s.len() {
        opt_field(cur)
    } else if sep(s[i]) {
        opt_field(cur) + fields_from(s, i + 1, Seq::empty(), sep)
    } else {
        fields_from(s, i + 1, cur.push(s[i]), sep)
    }
}

/// Whitespace-separated tokens of a request line.
pub open spec fn spec_tokens(s: Seq<u8>) -> Seq<Seq<u8>> {
    fields_from(s, 0, Seq::empty(), ws_pred())
}

/// Slash-separated segments of a request-target, empty segments dropped.
pub open spec fn spec_segments(s: Seq<u8>) -> Seq<Seq<u8>> {
    fields_from(s, 0, Seq::empty(), slash_pred())
}

/// Element-wise view of a vector of byte vectors.
pub open spec fn views(s: Seq<Vec<u8>>) -> Seq<Seq<u8>> {
    s.map_values(|v: Vec<u8>| v@)
}

fn is_ws_exec(b: u8) -> (r: bool)
    ensures
        r == is_ws(b),
{
    b == 32 || (9 <= b && b <= 13)
}

fn split_by(s: &[u8], by_slash: bool) -> (r: Vec<Vec<u8>>)
    ensures
        views(r@) == fields_from(
            s@,
            0,
            Seq::empty(),
            if by_slash {
                slash_pred()
            } else {
                ws_pred()
            },
        ),
{
    let ghost sep: spec_fn(u8) -> bool = if by_slash {
        slash_pred()
    } else {
        ws_pred()
    };
    let mut out: Vec<Vec<u8>> = Vec::new();
    let mut cur: Vec<u8> = Vec::new();
    let mut i: usize = 0;
    while i < s.len()
        invariant
            0 <= i <= s@.len(),
            sep == (if by_slash {
                slash_pred()
            } else {
                ws_pred()
            }),
            fields_from(s@, 0, Seq::empty(), sep) == views(out@) + fields_from(
                s@,
                i as int,
                cur@,
                sep,
            ),
        decreases s@.len() - i,
    {
        let ghost out0 = out@;
        let ghost cur0 = cur@;
        let b = s[i];
        let boundary = if by_slash {
            b == 47
        } else {
            is_ws_exec(b)
        };
        if boundary {
            assert(sep(s@[i as int]));
            assert(fields_from(s@, i as int, cur0, sep) == opt_field(cur0) + fields_from(
                s@,
                i + 1,
                Seq::empty(),
                sep,
            ));
            if cur.len() > 0 {
                let done = cur;
                cur = Vec::new();
                out.push(done);
                assert(views(out@) =~= views(out0) + opt_field(cur0));
            } else {
                assert(views(out@) =~= views(out0) + opt_field(cur0));
            }
            assert(cur@ =~= Seq::<u8>::empty());
            let ghost tail = fields_from(s@, i + 1, Seq::<u8>::empty(), sep);
            assert((views(out0) + opt_field(cur0)) + tail =~= views(out0) + (opt_field(cur0)
                + tail));
            assert(views(out@) + fields_from(s@, i + 1, cur@, sep) == views(out0) + fields_from(
                s@,
                i as int,
                cur0,
                sep,
            ));
        } else {
            assert(!sep(s@[i as int]));
            cur.push(b);
            assert(fields_from(s@, i as int, cur0, sep) == fields_from(s@, i + 1, cur@, sep));
        }
        i += 1;
    }
    assert(fields_from(s@, i as int, cur@, sep) == opt_field(cur@));
    let ghost out0 = out@;
    let ghost cur0 = cur@;
    if cur.len() > 0 {
        let done = cur;
        out.push(done);
    }
    assert(views(out@) =~= views(out0) + opt_field(cur0));
    assert(views(out@) =~= fields_from(s@, 0, Seq::empty(), sep));
    out
}

/// Whitespace-separated tokens of a request line, dropping empty tokens.
pub fn split_tokens(s: &[u8]) -> (r: Vec<Vec<u8>>)
    ensures
        views(r@) == spec_tokens(s@),
{
    split_by(s, false)
}

/// Slash-separated segments of a request-target, dropping empty segments.
pub fn split_segments(s: &[u8]) -> (r: Vec<Vec<u8>>)
    ensures
        views(r@) == spec_segments(s@),
{
    split_by(s, true)
}

/// A single well-formed field: non-empty, with no separator byte inside.
pub open spec fn field_wf(f: Seq<u8>, sep: spec_fn(u8) -> bool) -> bool {
    f.len() > 0 && forall|t: int| 0 <= t < f.len() ==> !sep(#[trigger] f[t])
}

/// Every field the splitter yields is non-empty and free of separator bytes.
pub proof fn lemma_fields_wf(s: Seq<u8>, i: int, cur: Seq<u8>, sep: spec_fn(u8) -> bool)
    requires
        forall|t: int| 0 <= t < cur.len() ==> !sep(#[trigger] cur[t]),
    ensures
        forall|k: int|
            0 <= k < fields_from(s, i, cur, sep).len() ==> field_wf(
                #[trigger] fields_from(s, i, cur, sep)[k],
                sep,
            ),
    decreases s.len() - i,
{
    let fs = fields_from(s, i, cur, sep);
    if i < 0 || i >= s.len() {
        assert forall|k: int| 0 <= k < fs.len() implies field_wf(fs[k], sep) by {
            assert(fs[k] == cur);
        }
    } else if sep(s[i]) {
        lemma_fields_wf(s, i + 1, Seq::empty(), sep);
        let rest = fields_from(s, i + 1, Seq::empty(), sep);
        assert forall|k: int| 0 <= k < fs.len() implies field_wf(fs[k], sep) by {
            if k < opt_field(cur).len() {
                assert(fs[k] == cur);
            } else {
                assert(fs[k] == rest[k - opt_field(cur).len()]);
            }
        }
    } else {
        assert(forall|t: int|
            0 <= t < cur.push(s[i]).len() ==> !sep(#[trigger] cur.push(s[i])[t]));
        lemma_fields_wf(s, i + 1, cur.push(s[i]), sep);
        let rest = fields_from(s, i + 1, cur.push(s[i]), sep);
        assert(fs == rest);
        assert forall|k: int| 0 <= k < fs.len() implies field_wf(fs[k], sep) by {
            assert(fs[k] == rest[k]);
        }
    }
}

/// No segment of a request-target is empty or contains a slash, however many
/// repeated slashes the target holds.
pub proof fn lemma_segments_wf(s: Seq<u8>, k: int)
    requires
        0 <= k < spec_segments(s).len(),
    ensures
        spec_segments(s)[k].len() > 0,
        forall|t: int| 0 <= t < spec_segments(s)[k].len() ==> spec_segments(s)[k][t] != 47,
{
    lemma_fields_wf(s, 0, Seq::empty(), slash_pred());
    assert(field_wf(spec_segments(s)[k], slash_pred()));
    assert(forall|t: int|
        0 <= t < spec_segments(s)[k].len() ==> !slash_pred()(#[trigger] spec_segments(s)[k][t]));
}

/// Fields depend only on the part of the sequence at and after the position.
pub proof fn lemma_fields_skip(s: Seq<u8>, i: int, k: int, cur: Seq<u8>, sep: spec_fn(u8) -> bool)
    requires
        0 <= i,
        0 <= k,
        i + k <= s.len(),
    ensures
        fields_from(s, i + k, cur, sep) == fields_from(s.skip(i), k, cur, sep),
    decreases s.len() - i - k,
{
    if i + k < s.len() {
        assert(s.skip(i)[k] == s[i + k]);
        if sep(s[i + k]) {
            lemma_fields_skip(s, i, k + 1, Seq::empty(), sep);
        } else {
            lemma_fields_skip(s, i, k + 1, cur.push(s[i + k]), sep);
        }
    }
}

/// Reading a run of non-separator bytes extends the current field.
pub proof fn lemma_fields_nonsep_run(
    s: Seq<u8>,
    i: int,
    j: int,
    cur: Seq<u8>,
    sep: spec_fn(u8) -> bool,
)
    requires
        0 <= i <= j <= s.len(),
        forall|t: int| i <= t < j ==> !sep(#[trigger] s[t]),
    ensures
        fields_from(s, i, cur, sep) == fields_from(s, j, cur + s.subrange(i, j), sep),
    decreases j - i,
{
    if i == j {
        assert(cur + s.subrange(i, j) =~= cur);
    } else {
        lemma_fields_nonsep_run(s, i + 1, j, cur.push(s[i]), sep);
        assert(cur.push(s[i]) + s.subrange(i + 1, j) =~= cur + s.subrange(i, j));
    }
}

/// Reading a run of separator bytes with no pending field yields nothing.
pub proof fn lemma_fields_sep_run(s: Seq<u8>, i: int, j: int, sep: spec_fn(u8) -> bool)
    requires
        0 <= i <= j <= s.len(),
        forall|t: int| i <= t < j ==> sep(#[trigger] s[t]),
    ensures
        fields_from(s, i, Seq::empty(), sep) == fields_from(s, j, Seq::empty(), sep),
    decreases j - i,
{
    if i < j {
        assert(opt_field(Seq::empty()) =~= Seq::<Seq<u8>>::empty());
        assert(opt_field(Seq::empty()) + fields_from(s, i + 1, Seq::empty(), sep) =~= fields_from(
            s,
            i + 1,
            Seq::empty(),
            sep,
        ));
        lemma_fields_sep_run(s, i + 1, j, sep);
    }
}

/// A request-target of a run of slashes, a word, a run of slashes, a rest,
/// and an optional trailing run of slashes normalizes to exactly the two
/// segments, whatever the length of each slash run.
pub proof fn lemma_two_segment_target(a: Seq<u8>, w: Seq<u8>, b: Seq<u8>, r: Seq<u8>, c: Seq<u8>)
    requires
        a.len() > 0,
        b.len() > 0,
        w.len() > 0,
        r.len() > 0,
        forall|t: int| 0 <= t < a.len() ==> a[t] == 47,
        forall|t: int| 0 <= t < b.len() ==> b[t] == 47,
        forall|t: int| 0 <= t < c.len() ==> c[t] == 47,
        forall|t: int| 0 <= t < w.len() ==> w[t] != 47,
        forall|t: int| 0 <= t < r.len() ==> r[t] != 47,
    ensures
        spec_segments(a + w + b + r + c) == seq![w, r],
{
    let s = a + w + b + r + c;
    let sep = slash_pred();
    let p1 = a.len() as int;
    let p2 = p1 + w.len();
    let p3 = p2 + b.len();
    let p4 = p3 + r.len();
    let p5 = p4 + c.len();
    assert(s.len() == p5);
    assert forall|t: int| 0 <= t < p1 implies sep(s[t]) by {
        assert(s[t] == a[t]);
    }
    assert forall|t: int| p1 <= t < p2 implies !sep(s[t]) by {
        assert(s[t] == w[t - p1]);
    }
    assert forall|t: int| p2 <= t < p3 implies sep(s[t]) by {
        assert(s[t] == b[t - p2]);
    }
    assert forall|t: int| p3 <= t < p4 implies !sep(s[t]) by {
        assert(s[t] == r[t - p3]);
    }
    assert forall|t: int| p4 <= t < p5 implies sep(s[t]) by {
        assert(s[t] == c[t - p4]);
    }
    lemma_fields_sep_run(s, 0, p1, sep);
    lemma_fields_nonsep_run(s, p1, p2, Seq::empty(), sep);
    assert(Seq::empty() + s.subrange(p1, p2) =~= w);
    // At p2 the first slash of `b` ends the pending field `w`.
    assert(fields_from(s, p2, w, sep) == opt_field(w) + fields_from(s, p2 + 1, Seq::empty(), sep));
    lemma_fields_sep_run(s, p2 + 1, p3, sep);
    lemma_fields_nonsep_run(s, p3, p4, Seq::empty(), sep);
    assert(Seq::empty() + s.subrange(p3, p4) =~= r);
    if c.len() > 0 {
        assert(fields_from(s, p4, r, sep) == opt_field(r) + fields_from(
            s,
            p4 + 1,
            Seq::empty(),
            sep,
        ));
        lemma_fields_sep_run(s, p4 + 1, p5, sep);
        assert(fields_from(s, p5, Seq::<u8>::empty(), sep) =~= Seq::<Seq<u8>>::empty());
        assert(opt_field(r) + Seq::<Seq<u8>>::empty() =~= seq![r]);
    } else {
        assert(fields_from(s, p4, r, sep) == opt_field(r));
    }
    assert(opt_field(w) + seq![r] =~= seq![w, r]);
    assert(spec_segments(s) == seq![w, r]);
}

} // verus!
