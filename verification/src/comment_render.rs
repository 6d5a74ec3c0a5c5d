//! Render the trigger comment body from per-job benchmark sections.
//!
//! Each runner job contributes one markdown "section" that describes its
//! current state (running, completed, failed). Sibling jobs that share a
//! trigger comment get their sections concatenated into a single block,
//! delimited by HTML comment markers so the user's original body can be
//! re-extracted on subsequent updates.

use vstd::prelude::*;

use crate::text::{
    chars_of, find, find_seq, is_ws, push_range, push_str, to_owned_string, trim, trim_bounds,
    views, occurs_at,
};

verus! {

pub const MARKER_BEGIN: &'static str = "<!-- datafusion-benchmarking:begin -->";

pub const MARKER_END: &'static str = "<!-- datafusion-benchmarking:end -->";

/// `s` with trailing newlines and spaces removed.
pub open spec fn trim_end_nl_sp(s: Seq<char>) -> Seq<char>
    decreases s.len(),
{
    if s.len() > 0 && (s.last() == '\n' || s.last() == ' ') {
        trim_end_nl_sp(s.drop_last())
    } else {
        s
    }
}

/// `s` with leading newlines removed.
pub open spec fn trim_start_nl(s: Seq<char>) -> Seq<char>
    decreases s.len(),
{
    if s.len() > 0 && s[0] == '\n' {
        trim_start_nl(s.drop_first())
    } else {
        s
    }
}

/// What the user wrote: the body up to the bot block, without trailing
/// newlines and spaces.
pub open spec fn user_body(body: Seq<char>) -> Seq<char> {
    match find(body, MARKER_BEGIN@) {
        Some(idx) => trim_end_nl_sp(body.take(idx)),
        None => trim_end_nl_sp(body),
    }
}

pub proof fn lemma_trim_end_nl_sp_props(s: Seq<char>)
    ensures
        trim_end_nl_sp(s).len() <= s.len(),
        trim_end_nl_sp(s) == s.take(trim_end_nl_sp(s).len() as int),
        trim_end_nl_sp(s).len() > 0 ==> trim_end_nl_sp(s).last() != '\n' && trim_end_nl_sp(
            s,
        ).last() != ' ',
    decreases s.len(),
{
    if s.len() > 0 && (s.last() == '\n' || s.last() == ' ') {
        lemma_trim_end_nl_sp_props(s.drop_last());
        assert(s.drop_last().take(trim_end_nl_sp(s).len() as int) =~= s.take(
            trim_end_nl_sp(s).len() as int,
        ));
    } else {
        assert(s.take(s.len() as int) =~= s);
    }
}

/// Strip a previously-appended bot block from `body`, returning whatever the
/// user originally wrote. If the markers aren't present (first edit, or
/// human-edited comment), the entire body is treated as user content.
pub fn extract_user_body(body: &str) -> (r: &str)
    ensures
        r@ == user_body(body@),
{
    let v = chars_of(body);
    let m = chars_of(MARKER_BEGIN);
    let end0 = match find_seq(&v, &m) {
        Some(i) => i,
        None => v.len(),
    };
    proof {
        match find(v@, m@) {
            Some(i) => {
                crate::text::lemma_find_bounds(v@, m@);
            },
            None => {
                assert(v@.take(v@.len() as int) =~= v@);
            },
        }
    }
    let ghost base = v@.take(end0 as int);
    let mut end = end0;
    while end > 0 && (v[end - 1] == '\n' || v[end - 1] == ' ')
        invariant
            end <= end0 <= v@.len(),
            base == v@.take(end0 as int),
            trim_end_nl_sp(base) == trim_end_nl_sp(v@.take(end as int)),
        decreases end,
    {
        proof {
            assert(v@.take(end as int).drop_last() =~= v@.take(end - 1));
        }
        end = end - 1;
    }
    proof {
        assert(trim_end_nl_sp(v@.take(end as int)) == v@.take(end as int));
        assert(user_body(body@) == trim_end_nl_sp(base));
    }
    body.substring_char(0, end)
}

/// Sections joined with blank lines, skipping blank ones. A section after
/// the first position is preceded by a blank line even when every earlier
/// section was blank.
pub open spec fn sections_text(secs: Seq<Seq<char>>) -> Seq<char>
    decreases secs.len(),
{
    if secs.len() == 0 {
        seq![]
    } else {
        let prev = sections_text(secs.drop_last());
        let t = trim(secs.last());
        if t.len() == 0 {
            prev
        } else if secs.len() > 1 {
            prev + "\n\n"@ + t
        } else {
            prev + t
        }
    }
}

/// Every section is blank.
pub open spec fn all_blank(secs: Seq<Seq<char>>) -> bool {
    forall|i: int| 0 <= i < secs.len() ==> trim(#[trigger] secs[i]).len() == 0
}

/// The footer part of the bot block.
pub open spec fn footer_text(footer: Seq<char>) -> Seq<char> {
    if trim(footer).len() == 0 {
        seq![]
    } else {
        "\n\n"@ + trim_start_nl(footer)
    }
}

/// The bot block: markers around the sections and the footer.
pub open spec fn bot_block(secs: Seq<Seq<char>>, footer: Seq<char>) -> Seq<char> {
    MARKER_BEGIN@ + "\n"@ + sections_text(secs) + footer_text(footer) + "\n"@ + MARKER_END@
}

/// The full trigger-comment body.
pub open spec fn rendered(original: Seq<char>, secs: Seq<Seq<char>>, footer: Seq<char>) -> Seq<
    char,
> {
    let user = user_body(original);
    if all_blank(secs) {
        original
    } else if user.len() > 0 {
        user + "\n\n"@ + bot_block(secs, footer)
    } else {
        bot_block(secs, footer)
    }
}

/// Whether `s` is blank.
fn is_blank(s: &str) -> (r: bool)
    ensures
        r == (trim(s@).len() == 0),
{
    let v = chars_of(s);
    let (a, b) = trim_bounds(&v, 0, v.len());
    proof {
        assert(v@.subrange(0, v@.len() as int) =~= v@);
    }
    a == b
}

fn all_sections_blank(sections: &[String]) -> (r: bool)
    ensures
        r == all_blank(views(sections@)),
{
    let ghost secs = views(sections@);
    let mut blank = true;
    let mut k: usize = 0;
    while k < sections.len()
        invariant
            0 <= k <= sections@.len(),
            secs == views(sections@),
            blank == forall|i: int| 0 <= i < k ==> trim(#[trigger] secs[i]).len() == 0,
        decreases sections@.len() - k,
    {
        proof {
            assert(secs[k as int] == sections@[k as int]@);
        }
        if !is_blank(sections[k].as_str()) {
            blank = false;
        }
        k = k + 1;
    }
    blank
}

fn push_sections(out: &mut String, sections: &[String])
    ensures
        final(out)@ == old(out)@ + sections_text(views(sections@)),
{
    let ghost secs = views(sections@);
    let ghost start = out@;
    let mut i: usize = 0;
    proof {
        assert(secs.take(0) =~= Seq::<Seq<char>>::empty());
        assert(out@ =~= start + sections_text(secs.take(0)));
    }
    while i < sections.len()
        invariant
            0 <= i <= sections@.len(),
            secs == views(sections@),
            out@ == start + sections_text(secs.take(i as int)),
        decreases sections@.len() - i,
    {
        let v = chars_of(sections[i].as_str());
        let (a, b) = trim_bounds(&v, 0, v.len());
        proof {
            assert(v@.subrange(0, v@.len() as int) =~= v@);
            assert(secs.take(i + 1).drop_last() =~= secs.take(i as int));
            assert(secs.take(i + 1).last() == secs[i as int]);
            assert(secs[i as int] == sections@[i as int]@);
        }
        if a < b {
            if i > 0 {
                push_str(out, "\n\n");
            }
            push_range(out, &v, a, b);
        }
        i = i + 1;
    }
    proof {
        assert(secs.take(sections@.len() as int) =~= secs);
    }
}

fn push_footer(out: &mut String, footer: &str)
    ensures
        final(out)@ == old(out)@ + footer_text(footer@),
{
    if is_blank(footer) {
        proof {
            assert(old(out)@ + Seq::<char>::empty() =~= old(out)@);
        }
        return;
    }
    push_str(out, "\n\n");
    let fv = chars_of(footer);
    let mut s: usize = 0;
    proof {
        assert(fv@.skip(0) =~= fv@);
    }
    while s < fv.len() && fv[s] == '\n'
        invariant
            s <= fv@.len(),
            fv@ == footer@,
            trim_start_nl(footer@) == trim_start_nl(fv@.skip(s as int)),
        decreases fv@.len() - s,
    {
        proof {
            assert(fv@.skip(s as int).drop_first() =~= fv@.skip(s + 1));
        }
        s = s + 1;
    }
    proof {
        if s < fv@.len() {
            assert(fv@.skip(s as int)[0] == fv@[s as int]);
        }
        assert(fv@.subrange(s as int, fv@.len() as int) =~= fv@.skip(s as int));
    }
    push_range(out, &fv, s, fv.len());
    proof {
        assert(final(out)@ =~= old(out)@ + footer_text(footer@));
    }
}

/// Build the full trigger-comment body: the user's original text, followed
/// by the bot block containing one section per job. Returns
/// `original_body` unchanged when there are no sections to render.
pub fn render(original_body: &str, sections: &[String], footer: &str) -> (r: String)
    ensures
        r@ == rendered(original_body@, views(sections@), footer@),
{
    if all_sections_blank(sections) {
        return to_owned_string(original_body);
    }
    let user = extract_user_body(original_body);
    let mut out = String::new();
    if !user.is_empty() {
        push_str(&mut out, user);
        push_str(&mut out, "\n\n");
    }
    let ghost head = out@;
    push_str(&mut out, MARKER_BEGIN);
    push_str(&mut out, "\n");
    push_sections(&mut out, sections);
    push_footer(&mut out, footer);
    push_str(&mut out, "\n");
    push_str(&mut out, MARKER_END);
    proof {
        assert(out@ =~= head + bot_block(views(sections@), footer@));
        if user@.len() > 0 {
            assert(head =~= user@ + "\n\n"@);
        } else {
            assert(head =~= Seq::<char>::empty());
        }
    }
    out
}


// ─────────────────────────────── laws ─────────────────────────────────

proof fn lemma_marker_has_no_newline()
    ensures
        MARKER_BEGIN@.len() > 0,
        forall|i: int| 0 <= i < MARKER_BEGIN@.len() ==> MARKER_BEGIN@[i] != '\n',
{
    reveal_strlit("<!-- datafusion-benchmarking:begin -->");
}

proof fn lemma_trim_end_nl_sp_idem(s: Seq<char>)
    ensures
        trim_end_nl_sp(trim_end_nl_sp(s)) == trim_end_nl_sp(s),
{
    lemma_trim_end_nl_sp_props(s);
}

proof fn lemma_trim_end_nl_sp_blank_suffix(u: Seq<char>)
    ensures
        trim_end_nl_sp(trim_end_nl_sp(u) + "\n\n"@) == trim_end_nl_sp(u),
{
    reveal_strlit("\n\n");
    let t = trim_end_nl_sp(u);
    lemma_trim_end_nl_sp_props(u);
    assert((t + "\n\n"@).drop_last() =~= t + seq!['\n']);
    assert((t + seq!['\n']).drop_last() =~= t);
    assert(trim_end_nl_sp(t + "\n\n"@) == trim_end_nl_sp(t + seq!['\n']));
    assert(trim_end_nl_sp(t + seq!['\n']) == trim_end_nl_sp(t));
    assert(trim_end_nl_sp(t) == t);
}

/// The user's body contains no marker, and ends in neither a newline nor a
/// space.
proof fn lemma_user_body_props(b: Seq<char>)
    ensures
        forall|i: int| !occurs_at(user_body(b), MARKER_BEGIN@, i),
        trim_end_nl_sp(user_body(b)) == user_body(b),
        user_body(b) == b.take(user_body(b).len() as int),
{
    let m = MARKER_BEGIN@;
    crate::text::lemma_find_bounds(b, m);
    let base = match find(b, m) {
        Some(idx) => b.take(idx),
        None => b,
    };
    lemma_trim_end_nl_sp_props(base);
    let u = user_body(b);
    assert(u == trim_end_nl_sp(base));
    lemma_trim_end_nl_sp_idem(base);
    lemma_marker_has_no_newline();
    assert(u =~= b.take(u.len() as int));
    assert forall|i: int| !occurs_at(u, m, i) by {
        if occurs_at(u, m, i) {
            assert(u.subrange(i, i + m.len()) =~= b.subrange(i, i + m.len()));
            assert(occurs_at(b, m, i));
        }
    }
}

#[verifier::spinoff_prover]
#[verifier::rlimit(30)]
proof fn lemma_marker_found_after(u: Seq<char>, block: Seq<char>)
    requires
        forall|i: int| !occurs_at(u, MARKER_BEGIN@, i),
        u.len() > 0,
        block.len() >= MARKER_BEGIN@.len(),
        block.subrange(0, MARKER_BEGIN@.len() as int) == MARKER_BEGIN@,
    ensures
        find(u + "\n\n"@ + block, MARKER_BEGIN@) == Some(u.len() as int + 2),
{
    let m = MARKER_BEGIN@;
    reveal_strlit("\n\n");
    lemma_marker_has_no_newline();
    let out = u + "\n\n"@ + block;
    let n: int = u.len() as int + 2;
    assert(out.subrange(n, n + m.len()) =~= block.subrange(0, m.len() as int));
    assert forall|j: int| 0 <= j < n implies !occurs_at(out, m, j) by {
        if occurs_at(out, m, j) {
            if j + m.len() <= u.len() {
                assert(u.subrange(j, j + m.len()) =~= out.subrange(j, j + m.len()));
                assert(occurs_at(u, m, j));
            } else {
                let q = if j < u.len() {
                    u.len() as int
                } else {
                    j
                };
                assert(out[q] == '\n');
                assert(out.subrange(j, j + m.len())[q - j] == out[q]);
                assert(m[q - j] != '\n');
            }
        }
    }
    crate::text::lemma_find_is(out, m, n);
}

/// Rendering keeps what the user wrote: extracting the user's body from a
/// rendered comment gives back the user's body of the original comment.
pub proof fn lemma_render_keeps_user_body(
    original: Seq<char>,
    secs: Seq<Seq<char>>,
    footer: Seq<char>,
)
    ensures
        user_body(rendered(original, secs, footer)) == user_body(original),
{
    let m = MARKER_BEGIN@;
    let u = user_body(original);
    lemma_user_body_props(original);
    let out = rendered(original, secs, footer);
    let block = bot_block(secs, footer);
    assert(block.subrange(0, m.len() as int) =~= m);
    if all_blank(secs) {
    } else if u.len() > 0 {
        reveal_strlit("\n\n");
        assert(out == u + "\n\n"@ + block);
        lemma_marker_found_after(u, block);
        assert(out.take(u.len() as int + 2) =~= u + "\n\n"@);
        lemma_trim_end_nl_sp_blank_suffix(u);
    } else {
        assert(out == block);
        assert(occurs_at(out, m, 0)) by {
            assert(out.subrange(0, m.len() as int) =~= m);
        }
        crate::text::lemma_find_is(out, m, 0);
        assert(out.take(0) =~= Seq::<char>::empty());
    }
}

/// Rendering replaces any bot block from an earlier rendering: rendering an
/// already rendered comment is the same as rendering the original one,
/// unless the new rendering has no sections while the earlier one had some
/// (then the earlier rendering is kept as it is).
pub proof fn lemma_render_replaces_block(
    original: Seq<char>,
    old_secs: Seq<Seq<char>>,
    old_footer: Seq<char>,
    secs: Seq<Seq<char>>,
    footer: Seq<char>,
)
    requires
        all_blank(secs) ==> all_blank(old_secs),
    ensures
        rendered(rendered(original, old_secs, old_footer), secs, footer) == rendered(
            original,
            secs,
            footer,
        ),
{
    lemma_render_keeps_user_body(original, old_secs, old_footer);
}

/// Extracting the user's body is idempotent.
pub proof fn lemma_user_body_idempotent(body: Seq<char>)
    ensures
        user_body(user_body(body)) == user_body(body),
{
    let m = MARKER_BEGIN@;
    lemma_user_body_props(body);
    crate::text::lemma_find_bounds(user_body(body), m);
}

/// Sections are kept apart by a blank line: adding a section to the list
/// leaves the text of the earlier ones as it was and appends the new one,
/// trimmed, after a blank line (a blank section adds nothing, and the
/// section in the first position needs no separator).
pub proof fn lemma_sections_separated(secs: Seq<Seq<char>>, s: Seq<char>)
    ensures
        sections_text(secs.push(s)) == if trim(s).len() == 0 {
            sections_text(secs)
        } else if secs.len() == 0 {
            trim(s)
        } else {
            sections_text(secs) + "\n\n"@ + trim(s)
        },
{
    assert(secs.push(s).drop_last() =~= secs);
    if secs.len() == 0 {
        assert(sections_text(secs) =~= Seq::<char>::empty());
        assert(Seq::<char>::empty() + trim(s) =~= trim(s));
    }
}

/// Two non-blank sections are rendered, trimmed and in order, with a blank
/// line between them, inside the markers and after the user's text.
pub proof fn lemma_render_two_sections(original: Seq<char>, s: Seq<char>, t: Seq<char>, footer: Seq<char>)
    requires
        trim(s).len() > 0,
        trim(t).len() > 0,
    ensures
        rendered(original, seq![s, t], footer) == (if user_body(original).len() > 0 {
            user_body(original) + "\n\n"@
        } else {
            Seq::<char>::empty()
        }) + MARKER_BEGIN@ + "\n"@ + trim(s) + "\n\n"@ + trim(t) + footer_text(footer) + "\n"@
            + MARKER_END@,
{
    let secs = seq![s, t];
    assert(!all_blank(secs)) by {
        assert(secs[0] == s);
    }
    assert(secs.drop_last() =~= seq![s]);
    assert(seq![s].drop_last() =~= Seq::<Seq<char>>::empty());
    assert(sections_text(Seq::<Seq<char>>::empty()) =~= Seq::<char>::empty());
    assert(seq![s].last() == s);
    assert(Seq::<char>::empty() + trim(s) =~= trim(s));
    assert(sections_text(seq![s]) =~= trim(s));
    assert(secs.last() == t);
    assert(sections_text(secs) =~= trim(s) + "\n\n"@ + trim(t));
    let u = user_body(original);
    if u.len() > 0 {
        assert(rendered(original, secs, footer) =~= u + "\n\n"@ + MARKER_BEGIN@ + "\n"@ + trim(s)
            + "\n\n"@ + trim(t) + footer_text(footer) + "\n"@ + MARKER_END@);
    } else {
        assert(rendered(original, secs, footer) =~= MARKER_BEGIN@ + "\n"@ + trim(s) + "\n\n"@
            + trim(t) + footer_text(footer) + "\n"@ + MARKER_END@);
        assert(Seq::<char>::empty() + MARKER_BEGIN@ =~= MARKER_BEGIN@);
    }
}

} // verus!
