//! A transcriber that reads from a script.

use crate::asr::{AsrError, AsrErrorView};
use crate::order::{copied, name_views};
use crate::time::Span;
use vstd::arithmetic::div_mod::{
    lemma_fundamental_div_mod, lemma_fundamental_div_mod_converse, lemma_mod_bound, lemma_small_mod,
};
use vstd::arithmetic::mul::lemma_mul_is_distributive_add;
use vstd::prelude::*;

verus! {

/// A transcriber that returns scripted text after a scripted delay.
///
/// Its purpose is not to fake speech recognition but to make the *rest* of the
/// system falsifiable: with a fixed delay we can assert the release-to-text
/// budget, and with a scripted failure we can prove the session recovers instead
/// of wedging in `Finalizing` forever.
#[derive(Debug)]
pub struct Mock {
    lines: Vec<String>,
    next: usize,
    delay: Span,
    fail: bool,
}

/// What a scripted transcriber goes by.
#[verifier::ext_equal]
pub struct MockView {
    pub lines: Seq<Seq<char>>,
    pub next: nat,
    pub delay: Span,
    pub fail: bool,
}

impl MockView {
    pub open spec fn of(lines: Seq<Seq<char>>) -> Self {
        MockView { lines, next: 0, delay: Span { secs: 0, nanos: 0 }, fail: false }
    }

    /// The script after a line is read from it: from the end it starts over.
    pub open spec fn turned(self) -> Self {
        MockView {
            next: if self.next + 1 >= self.lines.len() {
                0
            } else {
                self.next + 1
            },
            ..self
        }
    }
}

/// The script after `n` lines are read from it.
pub open spec fn turned_often(script: MockView, n: nat) -> MockView
    decreases n,
{
    if n == 0 {
        script
    } else {
        turned_often(script, (n - 1) as nat).turned()
    }
}

/// The lines come in order, over and over: once `n` lines were read, the next is the
/// one at `n`, counted round and round the script.
pub proof fn law_lines_come_round_in_order(lines: Seq<Seq<char>>, n: nat)
    requires
        lines.len() > 0,
    ensures
        turned_often(MockView::of(lines), n) == (MockView {
            next: n % lines.len(),
            ..MockView::of(lines)
        }),
    decreases n,
{
    if n == 0 {
        lemma_small_mod(0, lines.len());
    } else {
        let m = (n - 1) as nat;
        law_lines_come_round_in_order(lines, m);
        let len = lines.len() as int;
        let q = m as int / len;
        let r = m as int % len;
        lemma_fundamental_div_mod(m as int, len);
        lemma_mod_bound(m as int, len);
        if r + 1 == len {
            lemma_mul_is_distributive_add(len, q, 1);
            lemma_fundamental_div_mod_converse(n as int, len, q + 1, 0);
        } else {
            lemma_fundamental_div_mod_converse(n as int, len, q, r + 1);
        }
    }
}

impl View for Mock {
    type V = MockView;

    closed spec fn view(&self) -> MockView {
        MockView {
            lines: name_views(self.lines@),
            next: self.next as nat,
            delay: self.delay,
            fail: self.fail,
        }
    }
}

impl Clone for Mock {
    fn clone(&self) -> (r: Self)
        ensures
            r@ == self@,
    {
        proof {
            use_type_invariant(self);
        }
        let lines = copied(self.lines.as_slice());
        assert(lines@.len() == name_views(lines@).len());
        assert(self.lines@.len() == name_views(self.lines@).len());
        Mock { lines, next: self.next, delay: self.delay, fail: self.fail }
    }
}

impl Default for Mock {
    fn default() -> (r: Self)
        ensures
            r@ == MockView::of(seq!["This is Murmur, typing what you say."@]),
    {
        let lines = vec!["This is Murmur, typing what you say.".to_owned()];
        let r = Mock::new(lines);
        assert(r@.lines =~= seq!["This is Murmur, typing what you say."@]);
        r
    }
}

impl Mock {
    #[verifier::type_invariant]
    spec fn inv(self) -> bool {
        self.lines@.len() > 0 ==> self.next < self.lines@.len()
    }

    pub fn new(lines: Vec<String>) -> (r: Self)
        ensures
            r@ == MockView::of(name_views(lines@)),
    {
        Mock { lines, next: 0, delay: Span { secs: 0, nanos: 0 }, fail: false }
    }

    /// Pretend inference takes this long, to exercise the latency budget.
    #[must_use]
    pub fn with_delay(self, delay: Span) -> (r: Self)
        ensures
            r@ == (MockView { delay, ..self@ }),
    {
        proof {
            use_type_invariant(&self);
        }
        Mock { lines: self.lines, next: self.next, delay, fail: self.fail }
    }

    /// Fail every call, to exercise the recovery path.
    #[must_use]
    pub fn failing() -> (r: Self)
        ensures
            r@ == (MockView { fail: true, ..MockView::of(Seq::empty()) }),
    {
        let r = Mock {
            lines: Vec::new(),
            next: 0,
            delay: Span { secs: 0, nanos: 0 },
            fail: true,
        };
        assert(r@.lines =~= Seq::<Seq<char>>::empty());
        r
    }

    #[must_use]
    pub fn name(&self) -> (r: String)
        ensures
            r@ == "mock"@,
    {
        "mock".to_owned()
    }

    /// How long inference is to take.
    #[must_use]
    pub fn delay(&self) -> (r: Span)
        ensures
            r == self@.delay,
    {
        self.delay
    }

    /// The text for audio that is silent or not.
    ///
    /// Silence transcribes to nothing, exactly as a real engine would, so the
    /// "empty transcript injects nothing" path is exercised by accident too.
    pub fn transcribe(&mut self, silent: bool) -> (r: Result<String, AsrError>)
        ensures
            match r {
                Err(e) => old(self)@.fail && e@ == AsrErrorView::Inference(
                    "mock transcriber is configured to fail"@,
                ) && final(self)@ == old(self)@,
                Ok(text) => !old(self)@.fail && if silent || old(self)@.lines.len() == 0 {
                    text@ == Seq::<char>::empty() && final(self)@ == old(self)@
                } else {
                    text@ == old(self)@.lines[old(self)@.next as int] && final(self)@
                        == old(self)@.turned()
                },
            },
    {
        proof {
            use_type_invariant(&*self);
        }
        if self.fail {
            return Err(AsrError::Inference("mock transcriber is configured to fail".to_owned()));
        }
        if silent || self.lines.len() == 0 {
            return Ok(String::new());
        }
        let line = self.lines[self.next].clone();
        self.next = if self.next + 1 >= self.lines.len() {
            0
        } else {
            self.next + 1
        };
        Ok(line)
    }
}

} // verus!
