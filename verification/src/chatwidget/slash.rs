//! The texts that the composer submits: the command to resume a session,
//! and messages of the user.

use crate::chatwidget::{
    ChatWidget, Progress, UserMessage, UserMessageView, WidgetView, emit, push_effect,
    user_message_submitted,
};
use crate::history_cell::{Effect, EffectView, ResumeRequest, ResumeRequestView, effect_views};
use crate::protocol::opt_view;
use crate::text::{
    join, join_from, starts_with, string_of, strings, texts, to_chars, trim, trim_start,
};
use vstd::prelude::*;

verus! {

/// The value of a decimal digit.
pub open spec fn digit_value(c: char) -> Option<int> {
    let n = c as u32;
    if 0x30 <= n <= 0x39 {
        Some(n - 0x30)
    } else {
        None
    }
}

/// The number that decimal digits stand for; none where a character is no
/// digit.
pub open spec fn digits_value(s: Seq<char>) -> Option<int>
    decreases s.len(),
{
    if s.len() == 0 {
        Some(0)
    } else {
        match (digits_value(s.drop_last()), digit_value(s.last())) {
            (Some(high), Some(low)) => Some(high * 10 + low),
            _ => None,
        }
    }
}

/// The number that a text stands for: decimal digits, with a `+` before
/// them or without, that give a number that fits.
pub open spec fn parsed_usize(s: Seq<char>) -> Option<usize> {
    let body = if s.len() > 0 && s[0] == '+' {
        s.drop_first()
    } else {
        s
    };
    if body.len() == 0 {
        None
    } else {
        match digits_value(body) {
            Some(v) => if v <= usize::MAX {
                Some(v as usize)
            } else {
                None
            },
            None => None,
        }
    }
}

/// The digits of a beginning stand for no more than all the digits.
pub proof fn lemma_digits_grow(s: Seq<char>, k: int)
    requires
        0 <= k <= s.len(),
        digits_value(s) is Some,
    ensures
        digits_value(s.take(k)) is Some,
        0 <= digits_value(s.take(k))->0 <= digits_value(s)->0,
    decreases s.len(),
{
    if k == s.len() {
        assert(s.take(k) =~= s);
        if s.len() > 0 {
            lemma_digits_grow(s.drop_last(), k - 1);
        }
    } else {
        lemma_digits_grow(s.drop_last(), k);
        assert(s.drop_last().take(k) =~= s.take(k));
    }
}

/// The number that a text stands for.
pub fn parse_usize(text: &str) -> (r: Option<usize>)
    ensures
        r == parsed_usize(text@),
{
    let v = to_chars(text);
    let from: usize = if v.len() > 0 && v[0] == '+' {
        1
    } else {
        0
    };
    if from == v.len() {
        return None;
    }
    let ghost body = v@.subrange(from as int, v.len() as int);
    assert(body == if v@.len() > 0 && v@[0] == '+' {
        v@.drop_first()
    } else {
        v@
    });
    let mut acc: usize = 0;
    let mut i: usize = from;
    assert(body.take(0) =~= Seq::<char>::empty());
    while i < v.len()
        invariant
            from <= i <= v.len(),
            body == v@.subrange(from as int, v.len() as int),
            body.len() > 0,
            parsed_usize(text@) == (match digits_value(body) {
                Some(x) => if x <= usize::MAX {
                    Some(x as usize)
                } else {
                    None
                },
                None => None,
            }),
            digits_value(body.take(i - from)) == Some(acc as int),
        decreases v.len() - i,
    {
        let n: u32 = v[i] as u32;
        proof {
            assert(body.take(i - from + 1).drop_last() =~= body.take(i - from));
            assert(body.take(i - from + 1).last() == v@[i as int]);
        }
        if n < 0x30 || n > 0x39 {
            proof {
                if digits_value(body) is Some {
                    lemma_digits_grow(body, i - from + 1);
                }
            }
            return None;
        }
        let d: usize = (n - 0x30) as usize;
        let next = match acc.checked_mul(10) {
            Some(m) => m.checked_add(d),
            None => None,
        };
        match next {
            Some(x) => {
                acc = x;
            },
            None => {
                proof {
                    if digits_value(body) is Some {
                        lemma_digits_grow(body, i - from + 1);
                    }
                }
                return None;
            },
        }
        i += 1;
    }
    assert(body.take(v.len() - from) =~= body);
    Some(acc)
}

/// The words that `shlex` splits a text into by the rules of a POSIX
/// shell: up to the first word that it cannot read.
pub uninterp spec fn shell_words(text: Seq<char>) -> Seq<Seq<char>>;

/// `shlex::Shlex::new` and the words that its iterator gives, one `next`
/// after the other until it gives none. The iterator ends before a word
/// that is not closed. The same text always gives the same words.
#[verifier::external_body]
fn split_words(text: &str) -> (words: Vec<String>)
    ensures
        strings(words@) == shell_words(text@),
{
    shlex::Shlex::new(text).collect()
}

/// What the options of `/resume` say, and the words of the prompt that
/// follow them. `--at` and `--step` each take the word behind them; the
/// last of each counts. The first other word begins the prompt.
pub open spec fn resume_options(
    words: Seq<Seq<char>>,
    at: Option<Seq<char>>,
    step: Option<usize>,
) -> (Option<Seq<char>>, Option<usize>, Seq<Seq<char>>)
    decreases words.len(),
{
    if words.len() == 0 {
        (at, step, Seq::empty())
    } else if words[0] == "--at"@ {
        if words.len() >= 2 {
            resume_options(words.skip(2), Some(words[1]), step)
        } else {
            (at, step, Seq::empty())
        }
    } else if words[0] == "--step"@ {
        if words.len() >= 2 {
            resume_options(words.skip(2), at, parsed_usize(words[1]))
        } else {
            (at, step, Seq::empty())
        }
    } else {
        (at, step, words)
    }
}

/// The request that the words of a command make: `/resume`, a target,
/// options, and a prompt that is not empty.
pub open spec fn resume_request(words: Seq<Seq<char>>) -> Option<ResumeRequestView> {
    if words.len() >= 2 && words[0] == "/resume"@ {
        let options = resume_options(words.skip(2), None, None);
        let prompt = join(options.2, seq![' ']);
        if prompt.len() == 0 {
            None
        } else {
            Some(ResumeRequestView { target: words[1], at: options.0, step: options.1, prompt })
        }
    } else {
        None
    }
}

/// The request that a submitted text makes, where it is a command: its
/// first character that is no white space is `/`.
pub open spec fn slash_command(text: Seq<char>) -> Option<ResumeRequestView> {
    if starts_with(trim_start(text), seq!['/']) {
        resume_request(shell_words(trim(text)))
    } else {
        None
    }
}

/// The request that the words of a command make.
pub fn parse_resume_command(words: &Vec<String>) -> (r: Option<ResumeRequest>)
    ensures
        r is Some == resume_request(strings(words@)) is Some,
        r matches Some(request) ==> resume_request(strings(words@)) == Some(request@),
{
    let ghost all = strings(words@);
    if words.len() < 2 || !crate::text::same_text(words[0].as_str(), "/resume") {
        return None;
    }
    let mut parts: Vec<Vec<char>> = Vec::new();
    let mut k: usize = 0;
    while k < words.len()
        invariant
            k <= words.len(),
            parts@.len() == k,
            forall|j: int| 0 <= j < k ==> (#[trigger] parts@[j])@ == words@[j]@,
        decreases words.len() - k,
    {
        parts.push(to_chars(words[k].as_str()));
        k += 1;
    }
    assert(texts(parts@) =~= all);
    let mut at: Option<String> = None;
    let mut step: Option<usize> = None;
    let mut i: usize = 2;
    let mut done = false;
    while i < words.len() && !done
        invariant
            2 <= i <= words.len(),
            all == strings(words@),
            texts(parts@) == all,
            resume_options(all.skip(2), None, None) == resume_options(
                all.skip(i as int),
                opt_view(at),
                step,
            ),
            done ==> resume_options(all.skip(2), None, None) == (
                opt_view(at),
                step,
                all.skip(i as int),
            ),
        decreases words.len() - i + if done { 0int } else { 1int },
    {
        let ghost rest = all.skip(i as int);
        assert(rest[0] == words@[i as int]@);
        if crate::text::same_text(words[i].as_str(), "--at") {
            if i + 1 < words.len() {
                assert(rest[1] == words@[i + 1]@);
                assert(rest.skip(2) =~= all.skip(i + 2));
                at = Some(crate::text::text_copy(words[i + 1].as_str()));
                i += 2;
            } else {
                assert(all.skip(words.len() as int) =~= Seq::<Seq<char>>::empty());
                i = words.len();
            }
        } else if crate::text::same_text(words[i].as_str(), "--step") {
            if i + 1 < words.len() {
                assert(rest[1] == words@[i + 1]@);
                assert(rest.skip(2) =~= all.skip(i + 2));
                step = parse_usize(words[i + 1].as_str());
                i += 2;
            } else {
                assert(all.skip(words.len() as int) =~= Seq::<Seq<char>>::empty());
                i = words.len();
            }
        } else {
            done = true;
        }
    }
    proof {
        if !done {
            assert(all.skip(words.len() as int) =~= Seq::<Seq<char>>::empty());
        }
        assert(all.skip(i as int) =~= texts(parts@).subrange(i as int, parts.len() as int));
    }
    let mut space: Vec<char> = Vec::new();
    space.push(' ');
    assert(space@ =~= seq![' ']);
    let prompt = join_from(&parts, i, &space);
    if prompt.len() == 0 {
        return None;
    }
    assert(all.skip(2) =~= all.skip(2));
    Some(
        ResumeRequest {
            target: crate::text::text_copy(words[1].as_str()),
            at,
            step,
            prompt: string_of(&prompt),
        },
    )
}

/// The request that a submitted text makes, where it is a command.
pub fn try_handle_slash_command(text: &str) -> (r: Option<ResumeRequest>)
    ensures
        r is Some == slash_command(text@) is Some,
        r matches Some(request) ==> slash_command(text@) == Some(request@),
{
    let v = to_chars(text);
    assert(v@.subrange(0, v.len() as int) == v@);
    let bounds = crate::text::trim_bounds(&v, 0, v.len());
    let first = crate::text::skip_space(&v, 0, v.len());
    let begins = first < v.len() && v[first] == '/';
    proof {
        let rest = v@.subrange(first as int, v.len() as int);
        if begins {
            assert(rest.subrange(0, 1) =~= seq!['/']);
        } else if first < v.len() {
            assert(rest[0] != '/');
            if starts_with(rest, seq!['/']) {
                assert(rest.subrange(0, 1)[0] == rest[0]);
            }
        }
    }
    if !begins {
        return None;
    }
    let trimmed = crate::text::to_string(&v, bounds.0, bounds.1);
    let words = split_words(trimmed.as_str());
    parse_resume_command(&words)
}

/// A key was given to the widget: a key that was pressed hides the hint
/// that another ctrl-c quits; a text that the composer gives as submitted
/// is a command to resume a session or a message of the user.
pub open spec fn key_handled(w: WidgetView, pressed: bool, submitted: Option<Seq<char>>) -> Progress {
    let s = Progress {
        state: if pressed {
            WidgetView { ctrl_c_quit_hint: false, ..w }
        } else {
            w
        },
        effects: Seq::empty(),
    };
    match submitted {
        Some(text) => match slash_command(text) {
            Some(request) => emit(s, EffectView::Resume(request)),
            None => user_message_submitted(
                s,
                UserMessageView { text, image_paths: Seq::empty() },
            ),
        },
        None => s,
    }
}

impl ChatWidget {
    /// Handles a key. `pressed` says whether the key was pressed, and
    /// `submitted` is the text that the composer gave as submitted for it.
    pub fn handle_key_event(&mut self, pressed: bool, submitted: Option<String>) -> (effects: Vec<
        Effect,
    >)
        ensures
            final(self)@ == key_handled(old(self)@, pressed, opt_view(submitted)).state,
            effect_views(effects@) == key_handled(old(self)@, pressed, opt_view(submitted)).effects,
    {
        let mut effects: Vec<Effect> = Vec::new();
        assert(effect_views(effects@) =~= Seq::<EffectView>::empty());
        if pressed {
            self.ctrl_c_quit_hint = false;
        }
        match submitted {
            Some(text) => match try_handle_slash_command(text.as_str()) {
                Some(request) => {
                    push_effect(&mut effects, Effect::Resume(request));
                },
                None => {
                    self.submit_user_message(&mut effects, UserMessage::from_text(text));
                },
            },
            None => {},
        }
        effects
    }
}

} // verus!
