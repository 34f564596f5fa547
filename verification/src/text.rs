//! Unicode white space and what trimming a text leaves.

use vstd::prelude::*;

verus! {

/// Whether `c` is white space as Unicode has it (`White_Space`).
pub open spec fn is_white_space(c: char) -> bool {
    let n = c as u32;
    ||| 0x09 <= n <= 0x0D
    ||| n == 0x20
    ||| n == 0x85
    ||| n == 0xA0
    ||| n == 0x1680
    ||| 0x2000 <= n <= 0x200A
    ||| n == 0x2028
    ||| n == 0x2029
    ||| n == 0x202F
    ||| n == 0x205F
    ||| n == 0x3000
}

/// Whether every character of `s` is white space.
pub open spec fn all_white_space(s: Seq<char>) -> bool {
    forall|i: int| 0 <= i < s.len() ==> is_white_space(#[trigger] s[i])
}

/// Whether `s` neither starts nor ends with white space.
pub open spec fn is_trimmed(s: Seq<char>) -> bool {
    s.len() > 0 ==> !is_white_space(s.first()) && !is_white_space(s.last())
}

/// `s` without its leading white space.
pub open spec fn trimmed_start(s: Seq<char>) -> Seq<char>
    decreases s.len(),
{
    if s.len() > 0 && is_white_space(s.first()) {
        trimmed_start(s.drop_first())
    } else {
        s
    }
}

/// `s` without its trailing white space.
pub open spec fn trimmed_end(s: Seq<char>) -> Seq<char>
    decreases s.len(),
{
    if s.len() > 0 && is_white_space(s.last()) {
        trimmed_end(s.drop_last())
    } else {
        s
    }
}

/// `s` without its leading and trailing white space.
pub open spec fn trimmed(s: Seq<char>) -> Seq<char> {
    trimmed_end(trimmed_start(s))
}

/// What `trimmed_start` takes away is white space, and what it leaves does
/// not start with any: `cut` is the number of characters taken.
pub proof fn lemma_trimmed_start(s: Seq<char>) -> (cut: int)
    ensures
        0 <= cut <= s.len(),
        trimmed_start(s) == s.skip(cut),
        all_white_space(s.take(cut)),
        cut < s.len() ==> !is_white_space(s[cut]),
    decreases s.len(),
{
    if s.len() > 0 && is_white_space(s.first()) {
        let rest = s.drop_first();
        let inner = lemma_trimmed_start(rest);
        let cut = inner + 1;
        assert(rest.skip(inner) =~= s.skip(cut));
        assert forall|i: int| 0 <= i < s.take(cut).len() implies is_white_space(
            #[trigger] s.take(cut)[i],
        ) by {
            if i > 0 {
                assert(s.take(cut)[i] == rest.take(inner)[i - 1]);
            }
        }
        if cut < s.len() {
            assert(s[cut] == rest[inner]);
        }
        cut
    } else {
        assert(s.skip(0) =~= s);
        0
    }
}

/// What `trimmed_end` takes away is white space, and what it leaves does not
/// end with any: `keep` is the number of characters left.
pub proof fn lemma_trimmed_end(s: Seq<char>) -> (keep: int)
    ensures
        0 <= keep <= s.len(),
        trimmed_end(s) == s.take(keep),
        all_white_space(s.skip(keep)),
        keep > 0 ==> !is_white_space(s[keep - 1]),
    decreases s.len(),
{
    if s.len() > 0 && is_white_space(s.last()) {
        let rest = s.drop_last();
        let keep = lemma_trimmed_end(rest);
        assert(rest.take(keep) =~= s.take(keep));
        assert forall|i: int| 0 <= i < s.skip(keep).len() implies is_white_space(
            #[trigger] s.skip(keep)[i],
        ) by {
            if i < rest.skip(keep).len() {
                assert(s.skip(keep)[i] == rest.skip(keep)[i]);
            }
        }
        keep
    } else {
        assert(s.take(s.len() as int) =~= s);
        assert(s.skip(s.len() as int) =~= Seq::<char>::empty());
        s.len() as int
    }
}

/// Trimming takes white space from both ends and nothing else: the text is
/// its trimmed form with white space before and after it, and the trimmed
/// form neither starts nor ends with white space.
pub proof fn law_trimming_peels_white_space(s: Seq<char>) -> (around: (Seq<char>, Seq<char>))
    ensures
        s == around.0 + trimmed(s) + around.1,
        all_white_space(around.0),
        all_white_space(around.1),
        is_trimmed(trimmed(s)),
{
    let cut = lemma_trimmed_start(s);
    let middle = s.skip(cut);
    let keep = lemma_trimmed_end(middle);
    let lead = s.take(cut);
    let trail = middle.skip(keep);
    assert(s =~= lead + middle.take(keep) + trail);
    if keep > 0 {
        assert(middle.take(keep).first() == s[cut]);
        assert(middle.take(keep).last() == middle[keep - 1]);
    }
    (lead, trail)
}

/// A text that neither starts nor ends with white space is its own trimmed form.
pub proof fn lemma_trimmed_of_trimmed(s: Seq<char>)
    requires
        is_trimmed(s),
    ensures
        trimmed(s) == s,
{
}

/// Trimming a second time changes nothing.
pub proof fn law_trimming_is_idempotent(s: Seq<char>)
    ensures
        trimmed(trimmed(s)) == trimmed(s),
{
    let _ = law_trimming_peels_white_space(s);
    lemma_trimmed_of_trimmed(trimmed(s));
}

/// `str::trim`: the slice that is left when the leading and trailing
/// characters that Unicode has as `White_Space` are taken away.
pub assume_specification[ str::trim ](s: &str) -> (r: &str)
    ensures
        r@ == trimmed(s@),
;

/// The text of `s` without the white space around it, as a new string.
pub fn trim_owned(s: &str) -> (r: String)
    ensures
        r@ == trimmed(s@),
{
    s.trim().to_owned()
}

} // verus!
