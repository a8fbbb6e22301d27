//! Rewriting the `sounds_dir` line of the config file text.
use vstd::prelude::*;
use crate::text::same_text;

verus! {

/// Index of the first line feed of `s`, or its length when it has none.
pub open spec fn first_newline(s: Seq<char>) -> int
    decreases s.len(),
{
    if s.len() == 0 {
        0
    } else if s[0] == '\n' {
        0
    } else {
        1 + first_newline(s.drop_first())
    }
}

/// A line without the carriage return that ended it.
pub open spec fn strip_cr(line: Seq<char>) -> Seq<char> {
    if line.len() > 0 && line.last() == '\r' {
        line.drop_last()
    } else {
        line
    }
}

/// `s` with a backslash put before each double quote.
pub open spec fn escaped(s: Seq<char>) -> Seq<char>
    decreases s.len(),
{
    if s.len() == 0 {
        Seq::empty()
    } else {
        escaped(s.drop_last()) + if s.last() == '"' {
            seq!['\\', '"']
        } else {
            seq![s.last()]
        }
    }
}

/// The setting line that points `sounds_dir` at `new_path`.
pub open spec fn setting_line(new_path: Seq<char>) -> Seq<char> {
    "sounds_dir = \""@ + escaped(new_path) + "\""@
}

/// A line of the file after the rewrite.
pub open spec fn rewritten_line(line: Seq<char>, new_path: Seq<char>) -> Seq<char> {
    if line.len() >= 10 && line.subrange(0, 10) == "sounds_dir"@ {
        setting_line(new_path)
    } else {
        line
    }
}

/// The file text with each line that starts with `sounds_dir` replaced by the
/// new setting. Lines are kept otherwise, joined by line feeds (a carriage
/// return before a line feed is dropped), and a final line feed is kept.
pub open spec fn rewritten(s: Seq<char>, new_path: Seq<char>) -> Seq<char>
    decreases s.len(),
{
    let k = first_newline(s);
    if s.len() == 0 {
        Seq::empty()
    } else if 0 <= k < s.len() {
        let rest = s.subrange(k + 1, s.len() as int);
        let line = rewritten_line(strip_cr(s.subrange(0, k)), new_path);
        if rest.len() > 0 {
            line + "\n"@ + rewritten(rest, new_path)
        } else {
            line + "\n"@
        }
    } else {
        rewritten_line(s, new_path)
    }
}

proof fn lemma_first_newline(s: Seq<char>, m: int)
    requires
        0 <= m <= s.len(),
        m < s.len() ==> s[m] == '\n',
        forall|i: int| 0 <= i < m ==> s[i] != '\n',
    ensures
        first_newline(s) == m,
    decreases m,
{
    if m > 0 {
        assert(forall|i: int| 0 <= i < m - 1 ==> s.drop_first()[i] == s[i + 1]);
        lemma_first_newline(s.drop_first(), m - 1);
    }
}

/// Appends `new_path` with its double quotes escaped.
fn append_escaped(out: &mut String, new_path: &str)
    ensures
        final(out)@ == old(out)@ + escaped(new_path@),
{
    let n = new_path.unicode_len();
    let mut k: usize = 0;
    assert(new_path@.subrange(0, 0) =~= Seq::<char>::empty());
    assert(old(out)@ + Seq::<char>::empty() =~= old(out)@);
    while k < n
        invariant
            k <= n == new_path@.len(),
            out@ == old(out)@ + escaped(new_path@.subrange(0, k as int)),
        decreases n - k,
    {
        let ghost pre = new_path@.subrange(0, k as int);
        assert(new_path@.subrange(0, k + 1).drop_last() =~= pre);
        if new_path.get_char(k) == '"' {
            proof {
                reveal_strlit("\\\"");
            }
            out.append("\\\"");
            assert(out@ =~= old(out)@ + escaped(new_path@.subrange(0, k + 1)));
        } else {
            let c = new_path.substring_char(k, k + 1);
            out.append(c);
            assert(out@ =~= old(out)@ + escaped(new_path@.subrange(0, k + 1)));
        }
        k = k + 1;
    }
    assert(new_path@.subrange(0, n as int) =~= new_path@);
}

/// Appends the rewrite of one line.
fn append_line(out: &mut String, line: &str, new_path: &str)
    ensures
        final(out)@ == old(out)@ + rewritten_line(line@, new_path@),
{
    if line.unicode_len() >= 10 && same_text(line.substring_char(0, 10), "sounds_dir") {
        out.append("sounds_dir = \"");
        append_escaped(out, new_path);
        out.append("\"");
        assert(out@ =~= old(out)@ + setting_line(new_path@));
    } else {
        out.append(line);
    }
}

/// The config file text `raw` with its `sounds_dir` setting pointed at
/// `new_path`.
pub fn rewrite_sounds_dir(raw: &str, new_path: &str) -> (r: String)
    ensures
        r@ == rewritten(raw@, new_path@),
{
    let n = raw.unicode_len();
    let mut out = String::new();
    let mut i: usize = 0;
    assert(raw@.subrange(0, n as int) =~= raw@);
    while i < n
        invariant
            i <= n == raw@.len(),
            out@ + rewritten(raw@.subrange(i as int, n as int), new_path@) == rewritten(raw@, new_path@),
        decreases n - i,
    {
        let ghost cur = raw@.subrange(i as int, n as int);
        let mut j = i;
        while j < n && raw.get_char(j) != '\n'
            invariant
                i <= j <= n == raw@.len(),
                forall|m: int| i <= m < j ==> raw@[m] != '\n',
            decreases n - j,
        {
            j = j + 1;
        }
        proof {
            lemma_first_newline(cur, j - i);
        }
        if j < n {
            let mut end = j;
            if end > i && raw.get_char(end - 1) == '\r' {
                end = end - 1;
            }
            let line = raw.substring_char(i, end);
            assert(line@ =~= strip_cr(cur.subrange(0, j - i)));
            let ghost before = out@;
            append_line(&mut out, line, new_path);
            out.append("\n");
            assert(cur.subrange(j - i + 1, cur.len() as int) =~= raw@.subrange(j + 1, n as int));
            if j + 1 < n {
                assert(out@ + rewritten(raw@.subrange(j + 1, n as int), new_path@) =~= before + rewritten(cur, new_path@));
            } else {
                assert(raw@.subrange(j + 1, n as int).len() == 0);
                assert(out@ + rewritten(raw@.subrange(j + 1, n as int), new_path@) =~= before + rewritten(cur, new_path@));
            }
            i = j + 1;
        } else {
            let line = raw.substring_char(i, n);
            let ghost before = out@;
            append_line(&mut out, line, new_path);
            assert(out@ =~= before + rewritten(cur, new_path@));
            assert(raw@.subrange(n as int, n as int).len() == 0);
            assert(out@ + rewritten(raw@.subrange(n as int, n as int), new_path@) =~= out@);
            i = n;
        }
    }
    assert(raw@.subrange(n as int, n as int).len() == 0);
    assert(out@ + rewritten(raw@.subrange(n as int, n as int), new_path@) =~= out@);
    out
}

} // verus!
