//! Script block builder.
//!
//! A pure function from the frontend environment to the text of a single
//! self-contained inline `<script>` element: one line per entry of the form
//! `window.<KEY> = "<VALUE>";`. Values are embedded with plain quoting and no
//! further escaping; embedding untrusted values would need quote and
//! script-tag escaping on top of this.

use crate::FrontedEnvironment;
use vstd::prelude::*;
use vstd::string::StringExecFns;

verus! {

/// One `window.<KEY> = "<VALUE>";` line of the script block.
pub open spec fn script_line(key: Seq<char>, value: Seq<char>) -> Seq<char> {
    "window."@ + key + " = \""@ + value + "\";\n"@
}

/// The lines for all entries, in order.
pub open spec fn script_lines(entries: Seq<(Seq<char>, Seq<char>)>) -> Seq<char>
    decreases entries.len(),
{
    if entries.len() == 0 {
        Seq::empty()
    } else {
        script_line(entries[0].0, entries[0].1) + script_lines(entries.drop_first())
    }
}

/// The whole script block: the `<script>` opener, one line per entry, and
/// the closer.
pub open spec fn script_block_text(entries: Seq<(Seq<char>, Seq<char>)>) -> Seq<char> {
    "<script>\n"@ + script_lines(entries) + "</script>"@
}

/// Appending an entry at the end appends its line at the end.
proof fn lemma_script_lines_push(entries: Seq<(Seq<char>, Seq<char>)>, e: (Seq<char>, Seq<char>))
    ensures
        script_lines(entries.push(e)) == script_lines(entries) + script_line(e.0, e.1),
    decreases entries.len(),
{
    if entries.len() == 0 {
        assert(entries.push(e).drop_first() =~= entries);
        assert(script_lines(entries.push(e)) =~= script_lines(entries) + script_line(e.0, e.1));
    } else {
        assert(entries.push(e).drop_first() =~= entries.drop_first().push(e));
        lemma_script_lines_push(entries.drop_first(), e);
        assert(script_lines(entries.push(e)) =~= script_lines(entries) + script_line(e.0, e.1));
    }
}

/// Law: for a single-entry environment `{K: V}` the script block is exactly
/// the `<script>` opener, the one line `window.K = "V";`, and the closer.
pub proof fn lemma_script_block_single_entry(key: Seq<char>, value: Seq<char>)
    ensures
        script_block_text(seq![(key, value)]) == "<script>\n"@ + script_line(key, value)
            + "</script>"@,
{
    let entries = seq![(key, value)];
    assert(entries.drop_first() =~= Seq::<(Seq<char>, Seq<char>)>::empty());
    assert(script_lines(Seq::<(Seq<char>, Seq<char>)>::empty()) =~= Seq::<char>::empty());
    assert(script_lines(entries) =~= script_line(key, value));
    assert(script_block_text(entries) =~= "<script>\n"@ + script_line(key, value) + "</script>"@);
}

/// Builds the script block text for the given environment: deterministic for
/// a given sequence of entries, with no failure modes.
pub fn build_script_block(env: &FrontedEnvironment) -> (r: String)
    ensures
        r@ == script_block_text(env.entries()),
{
    let mut r = String::new();
    r.append("<script>\n");
    let n = env.0.len();
    let mut i: usize = 0;
    proof {
        assert(env.entries().take(0) =~= Seq::<(Seq<char>, Seq<char>)>::empty());
        assert(r@ =~= "<script>\n"@ + script_lines(env.entries().take(0)));
    }
    while i < n
        invariant
            n == env.0@.len(),
            i <= n,
            r@ == "<script>\n"@ + script_lines(env.entries().take(i as int)),
        decreases n - i,
    {
        let entry = &env.0[i];
        r.append("window.");
        r.append(entry.0.as_str());
        r.append(" = \"");
        r.append(entry.1.as_str());
        r.append("\";\n");
        proof {
            lemma_script_lines_push(env.entries().take(i as int), (entry.0@, entry.1@));
            assert(env.entries().take(i as int + 1) =~= env.entries().take(i as int).push(
                (entry.0@, entry.1@),
            ));
            assert(r@ =~= "<script>\n"@ + script_lines(env.entries().take(i as int + 1)));
        }
        i = i + 1;
    }
    r.append("</script>");
    proof {
        assert(env.entries().take(n as int) =~= env.entries());
        assert(r@ =~= script_block_text(env.entries()));
    }
    r
}

} // verus!
