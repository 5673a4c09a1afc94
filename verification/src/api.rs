//! Text handling of the OpenAI-compatible API and of `shard run`: chat
//! templates, response ids and the rough token count reported as usage.

use vstd::prelude::*;

use crate::fmt::{dec_spec, push_all, push_dec, push_lit};
use crate::text::{chars_of, string_of};

verus! {

/// One message of a chat request.
#[derive(Debug)]
pub struct ChatMsg {
    pub role: String,
    pub content: String,
}

/// One message in the Llama-3 chat template.
pub open spec fn llama3_turn(role: Seq<char>, content: Seq<char>) -> Seq<char> {
    "<|start_header_id|>"@ + role + "<|end_header_id|>\n\n"@ + content + "<|eot_id|>"@
}

/// The turns of `messages`, in order.
pub open spec fn llama3_turns(messages: Seq<ChatMsg>) -> Seq<char>
    decreases messages.len(),
{
    if messages.len() == 0 {
        Seq::empty()
    } else {
        llama3_turns(messages.drop_last()) + llama3_turn(
            messages.last().role@,
            messages.last().content@,
        )
    }
}

/// The prompt for a chat: begin-of-text, every message as a turn, then the
/// header of the assistant's turn.
pub open spec fn build_prompt_spec(messages: Seq<ChatMsg>) -> Seq<char> {
    "<|begin_of_text|>"@ + llama3_turns(messages)
        + "<|start_header_id|>assistant<|end_header_id|>\n\n"@
}

/// Each message as its Llama-3 turn: the role in a header, a blank line,
/// the content, the end-of-turn token.
spec fn turn_texts(messages: Seq<ChatMsg>) -> Seq<Seq<char>> {
    messages.map_values(
        |m: ChatMsg|
            "<|start_header_id|>"@ + m.role@ + "<|end_header_id|>\n\n"@ + m.content@
                + "<|eot_id|>"@,
    )
}

/// The prompt holds exactly one turn per message, whatever its role, in
/// message order: after begin-of-text come the turns of the messages one
/// after another (the `i`-th carrying the role and content of message `i`),
/// then the opened assistant header.
pub proof fn law_prompt_one_turn_per_message(messages: Seq<ChatMsg>)
    ensures
        build_prompt_spec(messages) == "<|begin_of_text|>"@ + messages.map_values(
            |m: ChatMsg|
                "<|start_header_id|>"@ + m.role@ + "<|end_header_id|>\n\n"@ + m.content@
                    + "<|eot_id|>"@,
        ).flatten()
            + "<|start_header_id|>assistant<|end_header_id|>\n\n"@,
{
    lemma_turns_flatten_alt(messages);
    turn_texts(messages).lemma_flatten_and_flatten_alt_are_equivalent();
    assert(turn_texts(messages) == messages.map_values(
            |m: ChatMsg|
                "<|start_header_id|>"@ + m.role@ + "<|end_header_id|>\n\n"@ + m.content@
                    + "<|eot_id|>"@,
        ));
}

/// The turns, laid end to end from the last message backwards.
proof fn lemma_turns_flatten_alt(messages: Seq<ChatMsg>)
    ensures
        llama3_turns(messages) == turn_texts(messages).flatten_alt(),
    decreases messages.len(),
{
    if messages.len() > 0 {
        lemma_turns_flatten_alt(messages.drop_last());
        assert(turn_texts(messages).drop_last() =~= turn_texts(messages.drop_last()));
        assert(turn_texts(messages).last() == llama3_turn(
            messages.last().role@,
            messages.last().content@,
        ));
    } else {
        assert(turn_texts(messages).len() == 0);
    }
}

/// The Llama-3 prompt for the messages of a chat request.
pub fn build_prompt(messages: &Vec<ChatMsg>) -> (r: String)
    ensures
        r@ == build_prompt_spec(messages@),
        r@ == "<|begin_of_text|>"@ + messages@.map_values(
            |m: ChatMsg|
                "<|start_header_id|>"@ + m.role@ + "<|end_header_id|>\n\n"@ + m.content@
                    + "<|eot_id|>"@,
        ).flatten() + "<|start_header_id|>assistant<|end_header_id|>\n\n"@,
{
    proof {
        law_prompt_one_turn_per_message(messages@);
    }
    let mut s = chars_of("<|begin_of_text|>");
    let ghost head = s@;
    let mut i: usize = 0;
    while i < messages.len()
        invariant
            i <= messages.len(),
            head == "<|begin_of_text|>"@,
            s@ == head + llama3_turns(messages@.take(i as int)),
        decreases messages.len() - i,
    {
        assert(messages@.take(i + 1).drop_last() =~= messages@.take(i as int));
        push_lit(&mut s, "<|start_header_id|>");
        push_all(&mut s, &chars_of(messages[i].role.as_str()));
        push_lit(&mut s, "<|end_header_id|>\n\n");
        push_all(&mut s, &chars_of(messages[i].content.as_str()));
        push_lit(&mut s, "<|eot_id|>");
        i = i + 1;
        assert(s@ =~= head + llama3_turns(messages@.take(i as int)));
    }
    assert(messages@.take(messages@.len() as int) =~= messages@);
    push_lit(&mut s, "<|start_header_id|>assistant<|end_header_id|>\n\n");
    string_of(&s)
}

/// The prompt `shard run` sends for a single user message: the Llama-3
/// instruct template when the tokenizer knows its header token, else the
/// ChatML template when it knows `<|im_start|>`, else the raw prompt.
pub open spec fn run_prompt_spec(prompt: Seq<char>, has_llama3_header: bool, has_chatml: bool) -> Seq<
    char,
> {
    if has_llama3_header {
        "<|start_header_id|>user<|end_header_id|>\n\n"@ + prompt
            + "<|eot_id|><|start_header_id|>assistant<|end_header_id|>\n\n"@
    } else if has_chatml {
        "<|im_start|>user\n"@ + prompt + "\n<|im_end|>\n<|im_start|>assistant\n"@
    } else {
        prompt
    }
}

/// Executable form of [`run_prompt_spec`].
pub fn run_prompt(prompt: &str, has_llama3_header: bool, has_chatml: bool) -> (r: String)
    ensures
        r@ == run_prompt_spec(prompt@, has_llama3_header, has_chatml),
{
    let p = chars_of(prompt);
    if has_llama3_header {
        let mut s = chars_of("<|start_header_id|>user<|end_header_id|>\n\n");
        push_all(&mut s, &p);
        push_lit(&mut s, "<|eot_id|><|start_header_id|>assistant<|end_header_id|>\n\n");
        string_of(&s)
    } else if has_chatml {
        let mut s = chars_of("<|im_start|>user\n");
        push_all(&mut s, &p);
        push_lit(&mut s, "\n<|im_end|>\n<|im_start|>assistant\n");
        string_of(&s)
    } else {
        string_of(&p)
    }
}

/// The token count reported for a completion: a quarter of its UTF-8 byte
/// length (the length taken as a `u32`), at least 1.
pub fn estimate_tokens(text: &str) -> (r: u32)
    ensures
        r == if (text.len() as u32) / 4 < 1 {
            1
        } else {
            (text.len() as u32) / 4
        },
{
    let n = text.len();
    #[verifier::truncate]
    let n32 = n as u32;
    let q = n32 / 4;
    if q < 1 {
        1
    } else {
        q
    }
}

/// `n` in decimal, padded with leading zeros to at least five digits.
pub open spec fn pad5_spec(n: nat) -> Seq<char> {
    let d = dec_spec(n);
    if d.len() < 5 {
        Seq::new((5 - d.len()) as nat, |i: int| '0') + d
    } else {
        d
    }
}

/// A response id: `{prefix}-{secs}` followed by the sub-second nanoseconds
/// modulo 100000, as five digits.
pub fn make_id(prefix: &str, unix_secs: u64, subsec_nanos: u32) -> (r: String)
    ensures
        r@ == prefix@ + "-"@ + dec_spec(unix_secs as nat) + pad5_spec((subsec_nanos % 100000) as nat),
{
    let mut s = chars_of(prefix);
    push_lit(&mut s, "-");
    push_dec(&mut s, unix_secs);
    let n = (subsec_nanos % 100000) as u64;
    let d = crate::fmt::dec_chars(n);
    proof {
        assert(crate::fmt::pow10(5) == 100000) by {
            reveal_with_fuel(crate::fmt::pow10, 6);
        }
        crate::fmt::lemma_dec_len_bound(n as nat, 5);
    }
    let ghost base = s@;
    let mut k: usize = d.len();
    while k < 5
        invariant
            d.len() <= k <= 5,
            s@ == base + Seq::new((k - d.len()) as nat, |i: int| '0'),
        decreases 5 - k,
    {
        s.push('0');
        k = k + 1;
        assert(s@ =~= base + Seq::new((k - d.len()) as nat, |i: int| '0'));
    }
    push_all(&mut s, &d);
    assert(s@ =~= base + pad5_spec(n as nat));
    string_of(&s)
}

/// The generation limit of a request: its `max_tokens`, else 200.
pub fn max_tokens_or_default(max_tokens: Option<u32>) -> (r: usize)
    ensures
        r as int == match max_tokens {
            Some(m) => m as int,
            None => 200,
        },
{
    match max_tokens {
        Some(m) => m as usize,
        None => 200,
    }
}

} // verus!
