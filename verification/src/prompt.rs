//! Prompt assembler: deterministically renders the system instruction, the
//! retrieved context and the ordered message history into the role-tagged
//! markup the model's tokenizer understands. This module owns the single
//! canonical implementation of that markup.

use vstd::prelude::*;
use vstd::string::*;
use crate::message::{msg_views, role_text, ChatMessage, MessageView};

verus! {

/// The markup block of one history message.
pub open spec fn block_of(m: MessageView) -> Seq<char> {
    "<|im_start|>"@ + role_text(m.role) + "\n"@ + m.content + "<|im_end|>\n"@
}

/// The markup blocks of a history, in chronological order.
pub open spec fn history_blocks(h: Seq<MessageView>) -> Seq<char>
    decreases h.len(),
{
    if h.len() == 0 {
        Seq::empty()
    } else {
        history_blocks(h.drop_last()) + block_of(h.last())
    }
}

/// The full prompt: one system block holding instruction and retrieved
/// context, the history blocks, and an open assistant block that signals
/// the model to generate.
pub open spec fn prompt_text(sys: Seq<char>, ctx: Seq<char>, h: Seq<MessageView>) -> Seq<char> {
    "<|im_start|>system\n"@ + sys + ctx + "<|im_end|>\n"@ + history_blocks(h)
        + "<|im_start|>assistant\n"@
}

/// Renders the prompt for one generation request.
pub fn build_prompt(system_msg: &str, search_context: &str, history: &Vec<ChatMessage>) -> (p:
    String)
    ensures
        p@ == prompt_text(system_msg@, search_context@, msg_views(history@)),
{
    let ghost h = msg_views(history@);
    let ghost head = "<|im_start|>system\n"@ + system_msg@ + search_context@ + "<|im_end|>\n"@;
    let mut p = String::from_str("<|im_start|>system\n");
    p.append(system_msg);
    p.append(search_context);
    p.append("<|im_end|>\n");
    proof {
        assert(p@ =~= head + history_blocks(h.take(0)));
    }
    let n = history.len();
    let mut i: usize = 0;
    while i < n
        invariant
            n == history@.len(),
            h == msg_views(history@),
            i <= n,
            p@ == head + history_blocks(h.take(i as int)),
        decreases n - i,
    {
        p.append("<|im_start|>");
        p.append(history[i].role.as_str());
        p.append("\n");
        p.append(history[i].content.as_str());
        p.append("<|im_end|>\n");
        proof {
            assert(h[i as int] == history@[i as int]@);
            assert(h.take(i + 1).drop_last() =~= h.take(i as int));
            assert(h.take(i + 1).last() == h[i as int]);
            assert(p@ =~= head + history_blocks(h.take(i + 1)));
        }
        i += 1;
    }
    p.append("<|im_start|>assistant\n");
    proof {
        assert(h.take(n as int) =~= h);
        assert(p@ =~= prompt_text(system_msg@, search_context@, h));
    }
    p
}

} // verus!
