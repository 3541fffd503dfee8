//! Parsing of `.env` files into credential maps, as the credential scanner
//! does after it has found the files.

use vstd::prelude::*;
use crate::string_map::StringMap;
use crate::text::{
    byte_offset, byte_offsets, char_vecs_view, chars_of, find_first, find_last, find_sub, first_of,
    first_occurrence, is_first_occurrence, last_of, prefix, split, split_char, string_from_chars,
    take_prefix, trim, trimmed, Strip,
};

verus! {

/// What one line of an environment file contributes.
pub enum LineEffect {
    /// A `HALT_SCAN` marker inside a comment: the rest of the file is ignored.
    Halt,
    /// A `key=value` entry.
    Entry(Seq<char>, Seq<char>),
    /// Nothing.
    Skip,
}

/// The entry that a comment-free line holds: the text before the first `=`
/// is the key; the pieces after it, joined without their `=` signs, are the
/// value; both lose their surrounding double quotes.
pub open spec fn entry_of(x: Seq<char>) -> LineEffect {
    let parts = split_char(x, '=');
    if parts.len() >= 2 {
        LineEffect::Entry(trimmed(parts[0], Strip::Quote), trimmed(parts.skip(1).flatten(), Strip::Quote))
    } else {
        LineEffect::Skip
    }
}

/// Where a line with a comment sign at byte offset `comment` is cut: at the
/// comment sign, unless the sign lies strictly between the first and the last
/// double quote, in which case the line is cut at the last double quote.
/// Offsets are byte offsets, and the cut keeps that many characters.
pub open spec fn comment_cut(x: Seq<char>, comment: nat) -> nat {
    match (first_of(x, '"'), last_of(x, '"')) {
        (Some(c), Some(d)) => {
            let cb = byte_offset(x, c);
            let db = byte_offset(x, d);
            if !(comment > cb && comment < db) {
                comment
            } else {
                db
            }
        },
        _ => comment,
    }
}

/// What a raw line of an environment file contributes, after it has been
/// trimmed of white space.
pub open spec fn line_effect(raw: Seq<char>) -> LineEffect {
    let x = trimmed(raw, Strip::WhiteSpace);
    match first_of(x, '#') {
        None => entry_of(x),
        Some(b) => {
            let bb = byte_offset(x, b);
            let halted = match first_occurrence(x, "HALT_SCAN"@) {
                Some(h) => byte_offset(x, h) > bb,
                None => false,
            };
            if halted {
                LineEffect::Halt
            } else {
                entry_of(prefix(x, comment_cut(x, bb) as int))
            }
        },
    }
}

/// The entries of the lines, in order, up to the first halting line; the
/// flag tells whether such a line was met.
pub open spec fn scan_lines(lines: Seq<Seq<char>>) -> (Map<Seq<char>, Seq<char>>, bool)
    decreases lines.len(),
{
    if lines.len() == 0 {
        (Map::empty(), false)
    } else {
        let (m, halted) = scan_lines(lines.drop_last());
        if halted {
            (m, true)
        } else {
            match line_effect(lines.last()) {
                LineEffect::Halt => (m, true),
                LineEffect::Entry(k, v) => (m.insert(k, v), false),
                LineEffect::Skip => (m, false),
            }
        }
    }
}

/// The credentials that an environment file holds.
pub open spec fn env_file_entries(contents: Seq<char>) -> Map<Seq<char>, Seq<char>> {
    scan_lines(split_char(contents, '\n')).0
}

/// Exec counterpart of [`LineEffect`].
pub enum EnvLine {
    Halt,
    Entry(String, String),
    Skip,
}

pub open spec fn env_line_effect(e: EnvLine) -> LineEffect {
    match e {
        EnvLine::Halt => LineEffect::Halt,
        EnvLine::Entry(k, v) => LineEffect::Entry(k@, v@),
        EnvLine::Skip => LineEffect::Skip,
    }
}

fn concat_pieces(parts: &Vec<Vec<char>>, from: usize) -> (r: Vec<char>)
    requires
        from <= parts@.len(),
    ensures
        r@ == char_vecs_view(parts@).skip(from as int).flatten(),
{
    let n = parts.len();
    let mut r: Vec<char> = Vec::new();
    let mut i: usize = from;
    assert(char_vecs_view(parts@).subrange(from as int, from as int) =~= Seq::<Seq<char>>::empty());
    while i < n
        invariant
            n == parts@.len(),
            from <= i <= n,
            r@ == char_vecs_view(parts@).subrange(from as int, i as int).flatten(),
        decreases n - i,
    {
        let piece = &parts[i];
        let m = piece.len();
        let ghost before = r@;
        let mut j: usize = 0;
        while j < m
            invariant
                m == piece@.len(),
                j <= m,
                r@ == before + piece@.take(j as int),
            decreases m - j,
        {
            r.push(piece[j]);
            assert(r@ =~= before + piece@.take(j + 1));
            j = j + 1;
        }
        proof {
            let v = char_vecs_view(parts@);
            assert(v.subrange(from as int, i + 1) =~= v.subrange(from as int, i as int).push(v[i as int]));
            v.subrange(from as int, i as int).lemma_flatten_push(v[i as int]);
            assert(piece@.take(m as int) =~= piece@);
        }
        i = i + 1;
    }
    assert(char_vecs_view(parts@).subrange(from as int, n as int) =~= char_vecs_view(parts@).skip(
        from as int,
    ));
    r
}

fn entry_from(x: &[char]) -> (r: EnvLine)
    ensures
        env_line_effect(r) == entry_of(x@),
{
    let parts = split(x, '=');
    if parts.len() >= 2 {
        let key = trim(&parts[0], Strip::Quote);
        let joined = concat_pieces(&parts, 1);
        let value = trim(&joined, Strip::Quote);
        EnvLine::Entry(string_from_chars(&key), string_from_chars(&value))
    } else {
        EnvLine::Skip
    }
}

/// What one raw line of an environment file contributes.
pub fn parse_env_line(raw: &[char]) -> (r: EnvLine)
    ensures
        env_line_effect(r) == line_effect(raw@),
{
    let x = trim(raw, Strip::WhiteSpace);
    match find_first(&x, '#') {
        None => entry_from(&x),
        Some(b) => {
            let offs = byte_offsets(&x);
            let bb = offs[b];
            let marker = chars_of("HALT_SCAN");
            let halted = match find_sub(&x, &marker) {
                Some(h) => {
                    proof {
                        let k = choose|k: int| is_first_occurrence(x@, "HALT_SCAN"@, k);
                        assert(k == h);
                    }
                    offs[h] > bb
                },
                None => false,
            };
            if halted {
                return EnvLine::Halt;
            }
            let cut = match (find_first(&x, '"'), find_last(&x, '"')) {
                (Some(c), Some(d)) => {
                    let cb = offs[c];
                    let db = offs[d];
                    if !(bb > cb && bb < db) {
                        bb
                    } else {
                        db
                    }
                },
                _ => bb,
            };
            let y = take_prefix(&x, cut);
            entry_from(&y)
        },
    }
}

/// Reads the credentials of an environment file: one `key=value` entry per
/// line, white space around a line ignored, `#` starting a comment unless it
/// stands inside double quotes, and a `HALT_SCAN` after a comment sign ending
/// the scan. A later entry overrides an earlier one with the same key.
pub fn parse_env_file(contents: &str) -> (r: StringMap)
    ensures
        r.wf(),
        r@ == env_file_entries(contents@),
{
    let chars = chars_of(contents);
    let lines = split(&chars, '\n');
    let ghost lv = char_vecs_view(lines@);
    let n = lines.len();
    let mut m = StringMap::new();
    let mut i: usize = 0;
    assert(lv.take(0) =~= Seq::<Seq<char>>::empty());
    while i < n
        invariant
            n == lines@.len(),
            lv == char_vecs_view(lines@),
            lv == split_char(contents@, '\n'),
            i <= n,
            m.wf(),
            scan_lines(lv.take(i as int)) == (m@, false),
        decreases n - i,
    {
        assert(lv.take(i + 1).drop_last() =~= lv.take(i as int));
        assert(lv.take(i + 1).last() == lines@[i as int]@);
        let effect = parse_env_line(&lines[i]);
        match effect {
            EnvLine::Halt => {
                proof {
                    assert(line_effect(lv.take(i + 1).last()) == LineEffect::Halt);
                    assert(scan_lines(lv.take(i + 1)) == (m@, true));
                    lemma_scan_lines_halted(lv, i + 1);
                    assert(scan_lines(lv).0 == m@);
                    assert(lv == split_char(contents@, '\n'));
                }
                return m;
            },
            EnvLine::Entry(k, v) => {
                m.insert(k, v);
            },
            EnvLine::Skip => {},
        }
        i = i + 1;
    }
    assert(lv.take(n as int) =~= lv);
    m
}

/// Once a halting line is met, later lines change nothing.
pub proof fn lemma_scan_lines_halted(lines: Seq<Seq<char>>, i: int)
    requires
        0 <= i <= lines.len(),
        scan_lines(lines.take(i)).1,
    ensures
        scan_lines(lines) == scan_lines(lines.take(i)),
    decreases lines.len() - i,
{
    if i < lines.len() {
        assert(lines.take(i + 1).drop_last() =~= lines.take(i));
        lemma_scan_lines_halted(lines, i + 1);
    } else {
        assert(lines.take(i) =~= lines);
    }
}

/// A `#` that no pair of double quotes encloses (no quote comes before it,
/// or none after it) starts a comment: unless the line ends the scan, its
/// entry is read from the text before the `#` alone. Offsets are byte
/// offsets, and the text kept is that many characters.
pub proof fn lemma_unquoted_hash_starts_comment(raw: Seq<char>, b: int)
    requires
        first_of(trimmed(raw, Strip::WhiteSpace), '#') == Some(b),
    ensures
        ({
            let x = trimmed(raw, Strip::WhiteSpace);
            let bb = byte_offset(x, b);
            let no_quote_before = first_of(x, '"') is None || bb < byte_offset(
                x,
                first_of(x, '"')->0,
            );
            let no_quote_after = last_of(x, '"') is None || bb > byte_offset(x, last_of(x, '"')->0);
            (no_quote_before || no_quote_after) && !(line_effect(raw) is Halt) ==> line_effect(raw)
                == entry_of(prefix(x, bb as int))
        }),
{
}

/// A `#` strictly between the first and the last double quote of a line
/// does not start a comment there: unless the line ends the scan, its entry
/// is read from the text before the last double quote.
pub proof fn lemma_quoted_hash_cuts_at_last_quote(raw: Seq<char>, b: int, c: int, d: int)
    requires
        first_of(trimmed(raw, Strip::WhiteSpace), '#') == Some(b),
        first_of(trimmed(raw, Strip::WhiteSpace), '"') == Some(c),
        last_of(trimmed(raw, Strip::WhiteSpace), '"') == Some(d),
    ensures
        ({
            let x = trimmed(raw, Strip::WhiteSpace);
            byte_offset(x, c) < byte_offset(x, b) < byte_offset(x, d) && !(line_effect(raw) is Halt)
                ==> line_effect(raw) == entry_of(prefix(x, byte_offset(x, d) as int))
        }),
{
}

/// A line without `#` is read whole, and a line with `HALT_SCAN` after its
/// first `#` ends the scan.
pub proof fn lemma_line_without_comment_and_halt(raw: Seq<char>)
    ensures
        ({
            let x = trimmed(raw, Strip::WhiteSpace);
            &&& first_of(x, '#') is None ==> line_effect(raw) == entry_of(x)
            &&& first_of(x, '#') is Some && first_occurrence(x, "HALT_SCAN"@) is Some && byte_offset(
                x,
                first_occurrence(x, "HALT_SCAN"@)->0,
            ) > byte_offset(x, first_of(x, '#')->0) ==> line_effect(raw) is Halt
        }),
{
}

/// The entries of a line-oriented `key=value` text read the plain way: each
/// line is split at `=`, and a line with at least one `=` maps the text
/// before it to the text between it and the next `=`. Nothing is trimmed.
pub open spec fn plain_entries(lines: Seq<Seq<char>>) -> Map<Seq<char>, Seq<char>>
    decreases lines.len(),
{
    if lines.len() == 0 {
        Map::empty()
    } else {
        let m = plain_entries(lines.drop_last());
        let parts = split_char(lines.last(), '=');
        if parts.len() >= 2 {
            m.insert(parts[0], parts[1])
        } else {
            m
        }
    }
}

/// Reads a `key=value` text the plain way (see [`plain_entries`]).
pub fn parse_env_file_plain(contents: &str) -> (r: StringMap)
    ensures
        r.wf(),
        r@ == plain_entries(split_char(contents@, '\n')),
{
    let chars = chars_of(contents);
    let lines = split(&chars, '\n');
    let ghost lv = char_vecs_view(lines@);
    let n = lines.len();
    let mut m = StringMap::new();
    let mut i: usize = 0;
    assert(lv.take(0) =~= Seq::<Seq<char>>::empty());
    while i < n
        invariant
            n == lines@.len(),
            lv == char_vecs_view(lines@),
            i <= n,
            m.wf(),
            plain_entries(lv.take(i as int)) == m@,
        decreases n - i,
    {
        assert(lv.take(i + 1).drop_last() =~= lv.take(i as int));
        assert(lv.take(i + 1).last() == lines@[i as int]@);
        let parts = split(&lines[i], '=');
        if parts.len() >= 2 {
            m.insert(string_from_chars(&parts[0]), string_from_chars(&parts[1]));
        }
        i = i + 1;
    }
    assert(lv.take(n as int) =~= lv);
    m
}

/// The file paths in the output of `find`: every line but the last piece
/// after the final line break.
pub open spec fn listed_paths(output: Seq<char>) -> Seq<Seq<char>> {
    split_char(output, '\n').drop_last()
}

/// The file paths that a `find` run printed, one per line.
pub fn find_output_paths(output: &str) -> (r: Vec<String>)
    ensures
        r@.len() == listed_paths(output@).len(),
        forall|i: int| 0 <= i < r@.len() ==> #[trigger] r@[i]@ == listed_paths(output@)[i],
{
    let chars = chars_of(output);
    let lines = split(&chars, '\n');
    let n = lines.len() - 1;
    let mut r: Vec<String> = Vec::new();
    let mut i: usize = 0;
    while i < n
        invariant
            n == lines@.len() - 1,
            i <= n,
            r@.len() == i,
            char_vecs_view(lines@) == split_char(output@, '\n'),
            forall|j: int| 0 <= j < i ==> #[trigger] r@[j]@ == listed_paths(output@)[j],
        decreases n - i,
    {
        r.push(string_from_chars(&lines[i]));
        i = i + 1;
    }
    r
}

/// Path of the credentials file written into the output directory `dir`.
pub fn credentials_path(dir: &str) -> (r: String)
    ensures
        r@ == dir@ + "/credentials.json"@,
{
    let mut r = String::from_str(dir);
    r.append("/credentials.json");
    r
}

} // verus!
