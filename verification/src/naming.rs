//! Derives the output file name from a device's display name: a leading
//! "Game & Watch:" prefix (matched case-insensitively over ASCII) is
//! stripped, every remaining colon becomes " -", the result is trimmed of
//! surrounding whitespace, and the ".gnw" extension is appended.

use vstd::prelude::*;
use vstd::string::*;

verus! {

/// ASCII lowercasing of one character; anything else is untouched.
pub open spec fn spec_lower_char(c: char) -> char {
    if 'A' <= c && c <= 'Z' {
        (((c as u8) + 32) as char)
    } else {
        c
    }
}

/// The prefix that is stripped, in lowercase.
pub open spec fn spec_gw_prefix() -> Seq<char> {
    seq!['g', 'a', 'm', 'e', ' ', '&', ' ', 'w', 'a', 't', 'c', 'h', ':']
}

/// Whether the name starts, ASCII-case-insensitively, with the prefix.
pub open spec fn spec_has_gw_prefix(s: Seq<char>) -> bool {
    s.len() >= 13 && (forall|i: int|
        0 <= i < 13 ==> spec_lower_char(#[trigger] s[i]) == spec_gw_prefix()[i])
}

pub open spec fn spec_stripped(s: Seq<char>) -> Seq<char> {
    if spec_has_gw_prefix(s) {
        s.skip(13)
    } else {
        s
    }
}

/// Every colon becomes a space and a dash.
pub open spec fn spec_replace_colons(s: Seq<char>) -> Seq<char>
    decreases s.len(),
{
    if s.len() == 0 {
        Seq::empty()
    } else {
        spec_replace_colons(s.drop_last()) + (if s.last() == ':' {
            seq![' ', '-']
        } else {
            seq![s.last()]
        })
    }
}

pub open spec fn spec_is_space(c: char) -> bool {
    c == ' ' || c == '\t' || c == '\n' || c == '\r'
}

pub open spec fn spec_trim_start(s: Seq<char>) -> Seq<char>
    decreases s.len(),
{
    if s.len() > 0 && spec_is_space(s[0]) {
        spec_trim_start(s.drop_first())
    } else {
        s
    }
}

pub open spec fn spec_trim_end(s: Seq<char>) -> Seq<char>
    decreases s.len(),
{
    if s.len() > 0 && spec_is_space(s.last()) {
        spec_trim_end(s.drop_last())
    } else {
        s
    }
}

pub open spec fn spec_trimmed(s: Seq<char>) -> Seq<char> {
    spec_trim_end(spec_trim_start(s))
}

/// The derived file name: prefix stripped, colons replaced, whitespace
/// trimmed, ".gnw" appended.
pub open spec fn spec_output_file_name(name: Seq<char>) -> Seq<char> {
    spec_trimmed(spec_replace_colons(spec_stripped(name))) + seq!['.', 'g', 'n', 'w']
}

proof fn lemma_trim_start_skip(s: Seq<char>, k: int)
    requires
        0 <= k <= s.len(),
        forall|i: int| 0 <= i < k ==> spec_is_space(#[trigger] s[i]),
        k == s.len() || !spec_is_space(s[k]),
    ensures
        spec_trim_start(s) == s.skip(k),
    decreases k,
{
    if k == 0 {
        assert(s.skip(0) =~= s);
    } else {
        assert(spec_is_space(s[0]));
        lemma_trim_start_skip(s.drop_first(), k - 1);
        assert(s.drop_first().skip(k - 1) =~= s.skip(k));
    }
}

proof fn lemma_trim_end_take(s: Seq<char>, k: int)
    requires
        0 <= k <= s.len(),
        forall|i: int| k <= i < s.len() ==> spec_is_space(#[trigger] s[i]),
        k == 0 || !spec_is_space(s[k - 1]),
    ensures
        spec_trim_end(s) == s.take(k),
    decreases s.len() - k,
{
    if k == s.len() {
        assert(s.take(k) =~= s);
    } else {
        assert(spec_is_space(s.last()));
        lemma_trim_end_take(s.drop_last(), k);
        assert(s.drop_last().take(k) =~= s.take(k));
    }
}

/// Relies on String::push: appends the one character to the end.
#[verifier::external_body]
fn push_char(s: &mut String, c: char)
    ensures
        final(s)@ == old(s)@.push(c),
{
    s.push(c);
}

fn lower_char(c: char) -> (r: char)
    ensures
        r == spec_lower_char(c),
{
    if c >= 'A' && c <= 'Z' {
        (((c as u8) + 32) as char)
    } else {
        c
    }
}

fn is_space(c: char) -> (r: bool)
    ensures
        r == spec_is_space(c),
{
    c == ' ' || c == '\t' || c == '\n' || c == '\r'
}

fn prefix_char(i: usize) -> (r: char)
    requires
        i < 13,
    ensures
        r == spec_gw_prefix()[i as int],
{
    let c = match i {
        0 => 'g',
        1 => 'a',
        2 => 'm',
        3 => 'e',
        4 => ' ',
        5 => '&',
        6 => ' ',
        7 => 'w',
        8 => 'a',
        9 => 't',
        10 => 'c',
        11 => 'h',
        _ => ':',
    };
    c
}

/// Derives `<name>.gnw` as the image assembler writes it.
pub fn derive_output_name(name: &String) -> (r: String)
    ensures
        r@ == spec_output_file_name(name@),
{
    let n = name.as_str().unicode_len();

    let mut matched = n >= 13;
    if matched {
        let mut i: usize = 0;
        while i < 13
            invariant
                i <= 13,
                13 <= n,
                n == name@.len(),
                matched == (forall|k: int|
                    0 <= k < i ==> spec_lower_char(#[trigger] name@[k]) == spec_gw_prefix()[k]),
            decreases 13 - i,
        {
            let c = name.as_str().get_char(i);
            let lowered = lower_char(c);
            matched = matched && lowered == prefix_char(i);
            i = i + 1;
        }
    }
    proof {
        assert(matched == spec_has_gw_prefix(name@));
    }

    let base: &str = if matched {
        name.as_str().substring_char(13, n)
    } else {
        name.as_str()
    };
    proof {
        if matched {
            assert(base@ =~= spec_stripped(name@));
        }
    }

    let m = base.unicode_len();
    let mut replaced = String::new();
    let mut i: usize = 0;
    while i < m
        invariant
            i <= m,
            m == base@.len(),
            replaced@ == spec_replace_colons(base@.take(i as int)),
        decreases m - i,
    {
        proof {
            assert(base@.take(i as int + 1).drop_last() =~= base@.take(i as int));
            assert(base@.take(i as int + 1).last() == base@[i as int]);
        }
        let c = base.get_char(i);
        if c == ':' {
            push_char(&mut replaced, ' ');
            push_char(&mut replaced, '-');
        } else {
            push_char(&mut replaced, c);
        }
        proof {
            assert(replaced@ =~= spec_replace_colons(base@.take(i as int + 1)));
        }
        i = i + 1;
    }
    proof {
        assert(base@.take(m as int) =~= base@);
    }

    let len2 = replaced.as_str().unicode_len();
    let mut start: usize = 0;
    while start < len2 && is_space(replaced.as_str().get_char(start))
        invariant
            start <= len2,
            len2 == replaced@.len(),
            forall|i: int| 0 <= i < start ==> spec_is_space(#[trigger] replaced@[i]),
        decreases len2 - start,
    {
        start = start + 1;
    }
    let mut end: usize = len2;
    while end > start && is_space(replaced.as_str().get_char(end - 1))
        invariant
            start <= end <= len2,
            len2 == replaced@.len(),
            forall|i: int| end <= i < len2 ==> spec_is_space(#[trigger] replaced@[i]),
        decreases end,
    {
        end = end - 1;
    }

    let trimmed = replaced.as_str().substring_char(start, end);
    proof {
        lemma_trim_start_skip(replaced@, start as int);
        lemma_trim_end_take(replaced@.skip(start as int), end as int - start as int);
        assert(replaced@.skip(start as int).take(end as int - start as int) =~= replaced@.subrange(
            start as int,
            end as int,
        ));
        assert(trimmed@ == spec_trimmed(replaced@));
    }

    let mut out = trimmed.to_owned();
    out.append(".gnw");
    proof {
        reveal_strlit(".gnw");
        assert(".gnw"@ =~= seq!['.', 'g', 'n', 'w']);
        assert(out@ =~= spec_output_file_name(name@));
    }
    out
}

} // verus!
