use kwaainet::api::{build_prompt, estimate_tokens, make_id, max_tokens_or_default, run_prompt, ChatMsg};

#[test]
fn chat_prompt_uses_llama3_turns() {
    let msgs = vec![
        ChatMsg { role: "system".to_string(), content: "Be brief.".to_string() },
        ChatMsg { role: "user".to_string(), content: "Hi".to_string() },
    ];
    assert_eq!(
        build_prompt(&msgs),
        "<|begin_of_text|><|start_header_id|>system<|end_header_id|>\n\nBe brief.<|eot_id|>\
         <|start_header_id|>user<|end_header_id|>\n\nHi<|eot_id|>\
         <|start_header_id|>assistant<|end_header_id|>\n\n"
    );
    assert_eq!(
        build_prompt(&vec![]),
        "<|begin_of_text|><|start_header_id|>assistant<|end_header_id|>\n\n"
    );
}

#[test]
fn run_prompt_templates() {
    assert_eq!(
        run_prompt("Q", true, true),
        "<|start_header_id|>user<|end_header_id|>\n\nQ<|eot_id|><|start_header_id|>assistant<|end_header_id|>\n\n"
    );
    assert_eq!(run_prompt("Q", false, true), "<|im_start|>user\nQ\n<|im_end|>\n<|im_start|>assistant\n");
    assert_eq!(run_prompt("Q", false, false), "Q");
}

#[test]
fn usage_and_ids() {
    assert_eq!(estimate_tokens(""), 1);
    assert_eq!(estimate_tokens("abc"), 1);
    assert_eq!(estimate_tokens("abcdefgh"), 2);
    assert_eq!(estimate_tokens("ééé"), 1);
    assert_eq!(estimate_tokens("éééé"), 2);
    assert_eq!(make_id("chatcmpl", 1700000000, 123_456_789), "chatcmpl-170000000056789");
    assert_eq!(make_id("cmpl", 5, 42), "cmpl-500042");
    assert_eq!(max_tokens_or_default(None), 200);
    assert_eq!(max_tokens_or_default(Some(7)), 7);
}
