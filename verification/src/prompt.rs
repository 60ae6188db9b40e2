//! Prompt construction: sonnet lines, already tokenized, are taken in a
//! shuffled order and cycled until exactly the requested number of tokens is
//! reached, then the instruction prompt is appended.

use crate::args::strings_view;
use rand::seq::SliceRandom;
use vstd::prelude::*;

verus! {

/// Tokens of the lines `order[0..j]`, one after another.
pub open spec fn lines_in_order(lines: Seq<Seq<u32>>, order: Seq<usize>, j: int) -> Seq<u32>
    decreases j,
{
    if j <= 0 {
        seq![]
    } else {
        lines_in_order(lines, order, j - 1) + lines[order[j - 1] as int]
    }
}

/// One full round over the lines in the given order.
pub open spec fn round(lines: Seq<Seq<u32>>, order: Seq<usize>) -> Seq<u32> {
    lines_in_order(lines, order, order.len() as int)
}

/// The first `n` tokens of `r` repeated without end (nothing when `r` is empty).
pub open spec fn cycle_prefix(r: Seq<u32>, n: nat) -> Seq<u32>
    decreases n,
{
    if r.len() == 0 {
        seq![]
    } else if n <= r.len() {
        r.take(n as int)
    } else {
        r + cycle_prefix(r, (n - r.len()) as nat)
    }
}

/// The prompt's token ids: `remaining` tokens of sonnet lines cycled in
/// `order`, then the instruction prompt.
pub open spec fn spec_prompt_ids(
    prompt: Seq<u32>,
    lines: Seq<Seq<u32>>,
    order: Seq<usize>,
    remaining: nat,
) -> Seq<u32> {
    cycle_prefix(round(lines, order), remaining) + prompt
}

pub open spec fn valid_order(order: Seq<usize>, n: nat) -> bool {
    forall|j: int| 0 <= j < order.len() ==> #[trigger] order[j] < n
}

/// `r` repeated `p` times.
pub open spec fn repeat(r: Seq<u32>, p: nat) -> Seq<u32>
    decreases p,
{
    if p == 0 {
        seq![]
    } else {
        repeat(r, (p - 1) as nat) + r
    }
}

proof fn lemma_repeat_front(r: Seq<u32>, p: nat)
    requires
        p > 0,
    ensures
        repeat(r, p) == r + repeat(r, (p - 1) as nat),
    decreases p,
{
    if p == 1 {
        assert(repeat(r, 0) =~= Seq::<u32>::empty());
        assert(repeat(r, 1) =~= r + repeat(r, 0));
    } else {
        lemma_repeat_front(r, (p - 1) as nat);
        assert(repeat(r, p) =~= r + repeat(r, (p - 1) as nat));
    }
}

proof fn lemma_lines_prefix(lines: Seq<Seq<u32>>, order: Seq<usize>, j: int, k: int)
    requires
        0 <= j <= k,
    ensures
        lines_in_order(lines, order, j).len() <= lines_in_order(lines, order, k).len(),
        lines_in_order(lines, order, k).take(lines_in_order(lines, order, j).len() as int)
            =~= lines_in_order(lines, order, j),
    decreases k - j,
{
    if j < k {
        lemma_lines_prefix(lines, order, j, k - 1);
        let a = lines_in_order(lines, order, j);
        let b = lines_in_order(lines, order, k - 1);
        let c = lines_in_order(lines, order, k);
        assert(c =~= b + lines[order[k - 1] as int]);
        assert(c.take(a.len() as int) =~= b.take(a.len() as int));
    }
}

proof fn lemma_line_in_round(lines: Seq<Seq<u32>>, order: Seq<usize>, j: int, k: int)
    requires
        0 <= j < k,
    ensures
        lines_in_order(lines, order, k).len() >= lines[order[j] as int].len(),
    decreases k,
{
    if j < k - 1 {
        lemma_line_in_round(lines, order, j, k - 1);
    }
}

proof fn lemma_cycle_prefix(r: Seq<u32>, p: nat, u: Seq<u32>)
    requires
        r.len() > 0,
        u.len() <= r.len(),
        r.take(u.len() as int) =~= u,
    ensures
        cycle_prefix(r, repeat(r, p).len() + u.len()) =~= repeat(r, p) + u,
    decreases p,
{
    lemma_repeat_len(r, p);
    if p == 0 {
        assert(repeat(r, 0) + u =~= u);
    } else {
        lemma_repeat_front(r, p);
        lemma_repeat_len(r, (p - 1) as nat);
        let n = repeat(r, p).len() + u.len();
        if n == r.len() {
            assert(repeat(r, (p - 1) as nat).len() == 0);
            assert(u.len() == 0);
            assert(repeat(r, (p - 1) as nat) =~= Seq::<u32>::empty());
            assert(r.take(r.len() as int) =~= r);
        } else {
            lemma_cycle_prefix(r, (p - 1) as nat, u);
            assert(r + repeat(r, (p - 1) as nat) + u =~= r + (repeat(r, (p - 1) as nat) + u));
        }
    }
}

proof fn lemma_repeat_len(r: Seq<u32>, p: nat)
    ensures
        r.len() > 0 && p > 0 ==> repeat(r, p).len() >= r.len(),
        repeat(r, p).len() == p * r.len(),
    decreases p,
{
    if p > 0 {
        lemma_repeat_len(r, (p - 1) as nat);
        assert(p * r.len() == (p - 1) * r.len() + r.len()) by (nonlinear_arith);
        if r.len() == 0 {
            assert(p * r.len() == 0) by (nonlinear_arith) requires r.len() == 0;
        }
    }
    if r.len() > 0 {
        assert(p * r.len() >= p) by (nonlinear_arith) requires r.len() > 0;
    }
}

/// Appends `src[..k]` to `dst`.
fn extend_prefix(dst: &mut Vec<u32>, src: &Vec<u32>, k: usize)
    requires
        k <= src@.len(),
    ensures
        final(dst)@ =~= old(dst)@ + src@.take(k as int),
{
    let mut i: usize = 0;
    while i < k
        invariant
            i <= k <= src@.len(),
            dst@ =~= old(dst)@ + src@.take(i as int),
        decreases k - i,
    {
        dst.push(src[i]);
        assert(src@.take(i + 1) =~= src@.take(i as int).push(src@[i as int]));
        i = i + 1;
    }
}

/// Builds the prompt's token ids with the lines taken in the given order:
/// `remaining_prompt_tokens` tokens of the lines cycled in `order` (the last
/// line cut short where the count runs out), then `prompt_ids`.
pub fn create_prompt_in_order(
    prompt_ids: &[u32],
    sonnet_lines: &[Vec<u32>],
    order: &[usize],
    remaining_prompt_tokens: u32,
) -> (res: Vec<u32>)
    requires
        valid_order(order@, sonnet_lines@.len()),
        remaining_prompt_tokens == 0 || order@.len() == 0 || round(
            sonnet_lines.deep_view(),
            order@,
        ).len() > 0,
    ensures
        res@ == spec_prompt_ids(
            prompt_ids@,
            sonnet_lines.deep_view(),
            order@,
            remaining_prompt_tokens as nat,
        ),
{
    let ghost lines = sonnet_lines.deep_view();
    let ghost r = round(lines, order@);
    let n = order.len();
    let mut result: Vec<u32> = Vec::new();
    let mut remaining = remaining_prompt_tokens;
    let mut done = n == 0;
    let ghost mut p: nat = 0;
    if n == 0 {
        assert(r =~= Seq::<u32>::empty());
    }
    while !done
        invariant
            n == order@.len(),
            lines == sonnet_lines.deep_view(),
            r == round(lines, order@),
            valid_order(order@, sonnet_lines@.len()),
            remaining_prompt_tokens == 0 || n == 0 || r.len() > 0,
            !done ==> result@ =~= repeat(r, p),
            !done ==> remaining + result@.len() == remaining_prompt_tokens,
            !done ==> r.len() > 0 || remaining == 0,
            !done ==> n > 0,
            done ==> result@ =~= cycle_prefix(r, remaining_prompt_tokens as nat),
        decreases remaining as int + if done {
            0int
        } else {
            1int
        },
    {
        let ghost pass_start = remaining;
        let mut j: usize = 0;
        while j < n && !done
            invariant
                n == order@.len(),
                lines == sonnet_lines.deep_view(),
                r == round(lines, order@),
                valid_order(order@, sonnet_lines@.len()),
                j <= n,
                remaining <= pass_start,
                remaining_prompt_tokens == 0 || n == 0 || r.len() > 0,
                !done ==> r.len() > 0 || remaining == 0,
                j > 0 && !done ==> r.len() > 0,
                !done ==> n > 0,
                !done ==> result@ =~= repeat(r, p) + lines_in_order(lines, order@, j as int),
                !done ==> remaining + result@.len() == remaining_prompt_tokens,
                !done ==> pass_start == remaining + lines_in_order(lines, order@, j as int).len(),
                done ==> result@ =~= cycle_prefix(r, remaining_prompt_tokens as nat),
            decreases n - j,
        {
            proof {
                lemma_lines_prefix(lines, order@, j as int, n as int);
                lemma_repeat_len(r, p);
            }
            if remaining == 0 {
                proof {
                    if r.len() > 0 {
                        lemma_cycle_prefix(r, p, lines_in_order(lines, order@, j as int));
                    }
                }
                done = true;
            } else {
                let line = &sonnet_lines[order[j]];
                let len = line.len();
                let ghost before = result@;
                assert(lines[order@[j as int] as int] == line@);
                assert(lines_in_order(lines, order@, j + 1) =~= lines_in_order(lines, order@, j as int)
                    + line@);
                if len <= remaining as usize {
                    extend_prefix(&mut result, line, len);
                    assert(line@.take(len as int) =~= line@);
                    remaining = remaining - len as u32;
                } else {
                    let k = remaining as usize;
                    extend_prefix(&mut result, line, k);
                    proof {
                        lemma_lines_prefix(lines, order@, j + 1, n as int);
                        let u = lines_in_order(lines, order@, j as int) + line@.take(k as int);
                        let w = lines_in_order(lines, order@, j + 1);
                        assert(w.take(u.len() as int) =~= u);
                        assert(r.take(u.len() as int) =~= w.take(u.len() as int));
                        lemma_cycle_prefix(r, p, u);
                        assert(result@ =~= repeat(r, p) + u);
                    }
                    remaining = 0;
                    done = true;
                }
            }
            j = j + 1;
        }
        if !done {
            proof {
                assert(j == n);
                assert(result@ =~= repeat(r, p) + r);
                p = p + 1;
                assert(repeat(r, p) =~= repeat(r, (p - 1) as nat) + r);
            }
        }
    }
    let ghost body = result@;
    let mut i: usize = 0;
    while i < prompt_ids.len()
        invariant
            i <= prompt_ids@.len(),
            result@ =~= body + prompt_ids@.take(i as int),
        decreases prompt_ids@.len() - i,
    {
        result.push(prompt_ids[i]);
        assert(prompt_ids@.take(i + 1) =~= prompt_ids@.take(i as int).push(prompt_ids@[i as int]));
        i = i + 1;
    }
    assert(prompt_ids@.take(i as int) =~= prompt_ids@);
    result
}


/// `0, 1, .., n - 1`.
pub open spec fn indices(n: nat) -> Seq<usize> {
    Seq::new(n, |i: int| i as usize)
}

/// `order` lists each index below `n` exactly once.
pub open spec fn is_permutation_of_indices(order: Seq<usize>, n: nat) -> bool {
    order.to_multiset() =~= indices(n).to_multiset()
}

/// Some line has at least one token.
pub open spec fn has_tokens(lines: Seq<Seq<u32>>) -> bool {
    exists|k: int| 0 <= k < lines.len() && #[trigger] lines[k].len() > 0
}

/// `rand::seq::SliceRandom::shuffle` with the thread-local generator
/// `rand::rng()`. It reorders the vector in place at random; what it states is
/// only what holds of every outcome: the same elements, each as often. Which
/// order comes out is left unsaid. The generator panics only when the system
/// random source cannot seed it, which no argument decides.
#[verifier::external_body]
fn shuffle_indices(v: &mut Vec<usize>)
    ensures
        final(v)@.to_multiset() =~= old(v)@.to_multiset(),
{
    v.shuffle(&mut rand::rng());
}

proof fn lemma_cycle_prefix_len(r: Seq<u32>, n: nat)
    ensures
        cycle_prefix(r, n).len() == if r.len() == 0 {
            0
        } else {
            n
        },
    decreases n,
{
    if r.len() > 0 && n > r.len() {
        lemma_cycle_prefix_len(r, (n - r.len()) as nat);
    }
}

/// Builds the prompt's token ids: the sonnet lines are shuffled, then cycled
/// until exactly `remaining_prompt_tokens` tokens are taken (the last line cut
/// short where the count runs out), then `prompt_ids` follows.
pub fn create_prompt(prompt_ids: &[u32], sonnet_lines: &[Vec<u32>], remaining_prompt_tokens: u32) -> (res:
    Vec<u32>)
    requires
        remaining_prompt_tokens == 0 || sonnet_lines@.len() == 0 || has_tokens(
            sonnet_lines.deep_view(),
        ),
    ensures
        exists|order: Seq<usize>|
            is_permutation_of_indices(order, sonnet_lines@.len()) && res@ == spec_prompt_ids(
                prompt_ids@,
                sonnet_lines.deep_view(),
                order,
                remaining_prompt_tokens as nat,
            ),
        res@.len() == prompt_ids@.len() + if sonnet_lines@.len() == 0 {
            0
        } else {
            remaining_prompt_tokens as nat
        },
{
    broadcast use vstd::seq_lib::group_to_multiset_ensures;

    let n = sonnet_lines.len();
    let mut order: Vec<usize> = Vec::new();
    let mut i: usize = 0;
    while i < n
        invariant
            i <= n,
            order@ =~= indices(i as nat),
        decreases n - i,
    {
        order.push(i);
        i = i + 1;
    }
    let ghost ident = order@;
    shuffle_indices(&mut order);
    let ghost lines = sonnet_lines.deep_view();
    proof {
        assert forall|j: int| 0 <= j < order@.len() implies #[trigger] order@[j] < n by {
            assert(order@.contains(order@[j]));
            assert(order@.to_multiset().count(order@[j]) > 0);
            assert(ident.contains(order@[j]));
        }
        assert(order@.len() == n) by {
            assert(order@.to_multiset().len() == ident.to_multiset().len());
        }
        if remaining_prompt_tokens != 0 && n != 0 {
            let k = choose|k: int| 0 <= k < lines.len() && #[trigger] lines[k].len() > 0;
            assert(ident[k] == k as usize);
            assert(ident.contains(k as usize));
            assert(ident.to_multiset().count(k as usize) > 0);
            assert(order@.to_multiset().count(k as usize) > 0);
            assert(order@.contains(k as usize));
            let j = choose|j: int| 0 <= j < order@.len() && order@[j] == k as usize;
            lemma_line_in_round(lines, order@, j, order@.len() as int);
        }
        if n > 0 {
            assert(round(lines, order@).len() > 0 || remaining_prompt_tokens == 0);
        }
    }
    let res = create_prompt_in_order(prompt_ids, sonnet_lines, order.as_slice(), remaining_prompt_tokens);
    proof {
        lemma_cycle_prefix_len(round(lines, order@), remaining_prompt_tokens as nat);
        if n == 0 {
            assert(round(lines, order@) =~= Seq::<u32>::empty());
        }
        assert(is_permutation_of_indices(order@, n as nat));
        assert(res@ == spec_prompt_ids(prompt_ids@, lines, order@, remaining_prompt_tokens as nat));
    }
    res
}


/// The mean prompt length actually sampled around: never below the length of
/// the instruction prompt itself.
pub fn prompt_token_mean(prompt_tokens_mean: u32, prompt_token_len: u32) -> (m: u32)
    ensures
        m == if prompt_tokens_mean >= prompt_token_len {
            prompt_tokens_mean
        } else {
            prompt_token_len
        },
{
    if prompt_tokens_mean >= prompt_token_len {
        prompt_tokens_mean
    } else {
        prompt_token_len
    }
}

/// The token ids of a prompt of `num_prompt_tokens` tokens in all: sonnet
/// lines in a random order fill what the instruction prompt leaves, and the
/// count is exact whenever there are lines.
pub fn sample_prompt_ids(prompt_ids: &[u32], sonnet_lines: &[Vec<u32>], num_prompt_tokens: u32) -> (res:
    Vec<u32>)
    requires
        prompt_ids@.len() <= num_prompt_tokens,
        num_prompt_tokens == prompt_ids@.len() || sonnet_lines@.len() == 0 || has_tokens(
            sonnet_lines.deep_view(),
        ),
    ensures
        exists|order: Seq<usize>|
            is_permutation_of_indices(order, sonnet_lines@.len()) && res@ == spec_prompt_ids(
                prompt_ids@,
                sonnet_lines.deep_view(),
                order,
                (num_prompt_tokens - prompt_ids@.len()) as nat,
            ),
        sonnet_lines@.len() > 0 ==> res@.len() == num_prompt_tokens,
{
    let remaining = num_prompt_tokens - prompt_ids.len() as u32;
    create_prompt(prompt_ids, sonnet_lines, remaining)
}

/// Reading text line by line: the lines ended so far, with a `\r` before
/// the `\n` dropped, and the text of the line not yet ended.
pub open spec fn scan_lines(s: Seq<char>) -> (Seq<Seq<char>>, Seq<char>)
    decreases s.len(),
{
    if s.len() == 0 {
        (seq![], seq![])
    } else {
        let (done, cur) = scan_lines(s.drop_last());
        if s.last() == '\n' {
            (done.push(strip_cr(cur)), seq![])
        } else {
            (done, cur.push(s.last()))
        }
    }
}

pub open spec fn strip_cr(l: Seq<char>) -> Seq<char> {
    if l.len() > 0 && l.last() == '\r' {
        l.drop_last()
    } else {
        l
    }
}

/// The lines of `s` as `str::lines` gives them: split at `\n` or `\r\n`, the
/// last line's ending optional, and no empty line after a final ending.
pub open spec fn text_lines(s: Seq<char>) -> Seq<Seq<char>> {
    let (done, cur) = scan_lines(s);
    if cur.len() == 0 {
        done
    } else {
        done.push(cur)
    }
}

/// The sonnet's lines, each with its `\n` put back.
pub open spec fn spec_sonnet_lines(s: Seq<char>) -> Seq<Seq<char>> {
    with_newlines(text_lines(s))
}

/// Each line followed by `\n`.
pub open spec fn with_newlines(lines: Seq<Seq<char>>) -> Seq<Seq<char>> {
    Seq::new(lines.len(), |i: int| lines[i] + seq!['\n'])
}

/// `s[lo..hi]` without a final `\r`, then `\n`.
fn line_with_newline(s: &str, lo: usize, hi: usize) -> (r: String)
    requires
        lo <= hi <= s@.len(),
    ensures
        r@ == strip_cr(s@.subrange(lo as int, hi as int)) + seq!['\n'],
{
    let end = if hi > lo && s.get_char(hi - 1) == '\r' {
        hi - 1
    } else {
        hi
    };
    let mut r = s.substring_char(lo, end).to_owned();
    proof {
        reveal_strlit("\n");
    }
    r.append("\n");
    if hi > lo {
        assert(s@.subrange(lo as int, hi as int).drop_last() =~= s@.subrange(lo as int, hi - 1));
    }
    r
}

/// Splits the sonnet into its lines, each keeping a `\n`.
pub fn sonnet_lines(text: &str) -> (r: Vec<String>)
    ensures
        strings_view(r@) == spec_sonnet_lines(text@),
{
    let n = text.unicode_len();
    let mut out: Vec<String> = Vec::new();
    let mut lo: usize = 0;
    let mut i: usize = 0;
    while i < n
        invariant
            lo <= i <= n,
            n == text@.len(),
            strings_view(out@) =~= with_newlines(scan_lines(text@.take(i as int)).0),
            text@.subrange(lo as int, i as int) == scan_lines(text@.take(i as int)).1,
        decreases n - i,
    {
        assert(text@.take(i + 1).drop_last() =~= text@.take(i as int));
        assert(text@.take(i + 1).last() == text@[i as int]);
        if text.get_char(i) == '\n' {
            let line = line_with_newline(text, lo, i);
            let ghost before = out@;
            out.push(line);
            assert(strings_view(out@) =~= strings_view(before).push(line@));
            lo = i + 1;
            assert(text@.subrange(lo as int, i + 1) =~= Seq::<char>::empty());
        } else {
            assert(text@.subrange(lo as int, i + 1) =~= text@.subrange(lo as int, i as int).push(
                text@[i as int],
            ));
        }
        i = i + 1;
    }
    assert(text@.take(n as int) =~= text@);
    let ghost done = scan_lines(text@).0;
    let ghost cur = scan_lines(text@).1;
    assert(cur == text@.subrange(lo as int, n as int));
    if lo < n {
        let mut line = text.substring_char(lo, n).to_owned();
        proof {
            reveal_strlit("\n");
        }
        line.append("\n");
        assert(line@ =~= cur + seq!['\n']);
        let ghost before = out@;
        out.push(line);
        assert(strings_view(out@) =~= strings_view(before).push(cur + seq!['\n']));
        assert(text_lines(text@) == done.push(cur));
        assert(with_newlines(done.push(cur)) =~= with_newlines(done).push(cur + seq!['\n']));
    } else {
        assert(cur.len() == 0);
        assert(text_lines(text@) == done);
    }
    out
}

} // verus!
