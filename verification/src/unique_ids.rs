//! The unique-id node: it answers every request with an id that it has not
//! given out before, made of its own name and a running count.

use crate::message::{Input, Message, NodeInit};
use crate::node::{Node, Timer};
use vstd::prelude::*;
use vstd::string::StringExecFns;

verus! {

/// The requests of the unique-id protocol.
#[derive(Debug, Clone)]
pub enum RequestDetail {
    Generate,
}

/// The responses of the unique-id protocol.
#[derive(Debug, Clone)]
pub enum ResponseDetail {
    GenerateOk { id: String },
}

/// The character that writes the digit `d`.
pub open spec fn digit(d: nat) -> char {
    if d == 0 {
        '0'
    } else if d == 1 {
        '1'
    } else if d == 2 {
        '2'
    } else if d == 3 {
        '3'
    } else if d == 4 {
        '4'
    } else if d == 5 {
        '5'
    } else if d == 6 {
        '6'
    } else if d == 7 {
        '7'
    } else if d == 8 {
        '8'
    } else {
        '9'
    }
}

/// The decimal numeral of `n`, without leading zeros.
pub open spec fn decimal(n: nat) -> Seq<char>
    decreases n,
{
    if n < 10 {
        seq![digit(n)]
    } else {
        decimal(n / 10).push(digit(n % 10))
    }
}

/// The id that a node named `name` gives out at count `count`: the name, a
/// hyphen and the count in decimal; the count alone while the node has no
/// name.
pub open spec fn unique_id(name: Option<Seq<char>>, count: nat) -> Seq<char> {
    match name {
        Some(name) => name + seq!['-'] + decimal(count),
        None => decimal(count),
    }
}

/// Two digits that are written alike are the same digit.
pub proof fn lemma_digit_injective(a: nat, b: nat)
    requires
        a < 10,
        b < 10,
        digit(a) == digit(b),
    ensures
        a == b,
{
}

/// A numeral has one character exactly when the number is below ten, and
/// never has none.
pub proof fn lemma_decimal_len(n: nat)
    ensures
        decimal(n).len() >= 1,
        decimal(n).len() == 1 <==> n < 10,
    decreases n,
{
    if n >= 10 {
        lemma_decimal_len(n / 10);
    }
}

/// Two numbers with the same numeral are the same number.
pub proof fn lemma_decimal_injective(a: nat, b: nat)
    requires
        decimal(a) == decimal(b),
    ensures
        a == b,
    decreases a,
{
    lemma_decimal_len(a);
    lemma_decimal_len(b);
    if a < 10 {
        assert(decimal(a)[0] == digit(a));
        assert(decimal(b)[0] == digit(b));
        lemma_digit_injective(a, b);
    } else {
        let front_a = decimal(a / 10);
        let front_b = decimal(b / 10);
        assert(decimal(a).last() == digit(a % 10));
        assert(decimal(b).last() == digit(b % 10));
        lemma_digit_injective(a % 10, b % 10);
        assert(front_a =~= decimal(a).drop_last());
        assert(front_b =~= decimal(b).drop_last());
        lemma_decimal_injective(a / 10, b / 10);
    }
}

/// A node never gives out the same id at two different counts.
pub proof fn lemma_unique_id_injective(name: Option<Seq<char>>, a: nat, b: nat)
    requires
        unique_id(name, a) == unique_id(name, b),
    ensures
        a == b,
{
    match name {
        Some(name) => {
            let prefix = name + seq!['-'];
            assert((prefix + decimal(a)).subrange(prefix.len() as int, (prefix + decimal(a)).len() as int)
                =~= decimal(a));
            assert((prefix + decimal(b)).subrange(prefix.len() as int, (prefix + decimal(b)).len() as int)
                =~= decimal(b));
            lemma_decimal_len(a);
            lemma_decimal_len(b);
        },
        None => {},
    }
    lemma_decimal_injective(a, b);
}

/// A numeral holds no hyphen.
pub proof fn lemma_decimal_has_no_hyphen(n: nat, i: int)
    requires
        0 <= i < decimal(n).len(),
    ensures
        decimal(n)[i] != '-',
    decreases n,
{
    if n >= 10 {
        if i < decimal(n / 10).len() {
            lemma_decimal_has_no_hyphen(n / 10, i);
        }
    }
}

/// Two nodes with different names never give out the same id, whatever
/// their counts are.
pub proof fn lemma_unique_id_tells_names_apart(x: Seq<char>, y: Seq<char>, a: nat, b: nat)
    requires
        x != y,
    ensures
        unique_id(Some(x), a) != unique_id(Some(y), b),
{
    let left = x + seq!['-'] + decimal(a);
    let right = y + seq!['-'] + decimal(b);
    if left == right {
        assert(left.len() == x.len() + 1 + decimal(a).len());
        assert(right.len() == y.len() + 1 + decimal(b).len());
        // Where a name ends, the id that it begins has the hyphen.
        assert(left[x.len() as int] == '-');
        assert(right[y.len() as int] == '-');
        if x.len() == y.len() {
            assert(x =~= left.subrange(0, x.len() as int));
            assert(y =~= right.subrange(0, y.len() as int));
        } else if x.len() < y.len() {
            let i = y.len() - x.len() - 1;
            assert(left[y.len() as int] == decimal(a)[i]);
            lemma_decimal_has_no_hyphen(a, i);
        } else {
            let i = x.len() - y.len() - 1;
            assert(right[x.len() as int] == decimal(b)[i]);
            lemma_decimal_has_no_hyphen(b, i);
        }
    }
}

/// The text of one digit.
fn digit_text(d: usize) -> (text: &'static str)
    requires
        d < 10,
    ensures
        text@ == seq![digit(d as nat)],
{
    proof {
        reveal_strlit("0");
        reveal_strlit("1");
        reveal_strlit("2");
        reveal_strlit("3");
        reveal_strlit("4");
        reveal_strlit("5");
        reveal_strlit("6");
        reveal_strlit("7");
        reveal_strlit("8");
        reveal_strlit("9");
    }
    let text = match d {
        0 => "0",
        1 => "1",
        2 => "2",
        3 => "3",
        4 => "4",
        5 => "5",
        6 => "6",
        7 => "7",
        8 => "8",
        _ => "9",
    };
    text
}

/// Appends the decimal numeral of `n` to `text`.
pub fn push_decimal(text: &mut String, n: usize)
    ensures
        final(text)@ == old(text)@ + decimal(n as nat),
    decreases n,
{
    if n >= 10 {
        push_decimal(text, n / 10);
    }
    text.append(digit_text(n % 10));
}

/// A node of the unique-id protocol.
#[derive(Debug, Clone)]
pub struct UniqueIdsNode {
    name: Option<String>,
    id_count: usize,
}

impl UniqueIdsNode {
    /// A node before the handshake, which has given out no id.
    pub fn new() -> (node: UniqueIdsNode)
        ensures
            node.name() is None,
            node.count() == 0,
    {
        UniqueIdsNode { name: None, id_count: 0 }
    }

    /// The number of ids that the node has given out.
    pub closed spec fn count(&self) -> nat {
        self.id_count as nat
    }
}

impl Node<RequestDetail, ResponseDetail, ()> for UniqueIdsNode {
    open spec fn wf(&self) -> bool {
        true
    }

    closed spec fn name(&self) -> Option<Seq<char>> {
        match self.name {
            Some(name) => Some(name@),
            None => None,
        }
    }

    /// The node has a case for requests only, and can count no further
    /// than the machine word.
    open spec fn accepts(&self, input: &Input<RequestDetail, ResponseDetail, ()>) -> bool {
        input is Request && self.count() < usize::MAX
    }

    open spec fn init_effect(&self, message: &NodeInit, post: &Self, timer: &Option<Timer<()>>) -> bool {
        &&& post.name() == Some(message.node_id@)
        &&& post.count() == self.count()
        &&& timer is None
    }

    open spec fn request_effect(
        &self,
        request: &Message<RequestDetail>,
        post: &Self,
        response: &ResponseDetail,
    ) -> bool {
        &&& post.name() == self.name()
        &&& post.count() == self.count() + 1
        &&& response->id@ == unique_id(self.name(), self.count())
    }

    open spec fn response_effect(&self, response: &Message<ResponseDetail>, post: &Self) -> bool {
        post.name() == self.name() && post.count() == self.count()
    }

    open spec fn event_effect(&self, event: &(), post: &Self, sent: Seq<Message<RequestDetail>>) -> bool {
        &&& post.name() == self.name()
        &&& post.count() == self.count()
        &&& sent.len() == 0
    }

    fn on_init(&mut self, message: &NodeInit) -> (timer: Option<Timer<()>>) {
        self.name = Some(message.node_id.clone());
        None
    }

    fn admits(&self, input: &Input<RequestDetail, ResponseDetail, ()>) -> (ok: bool) {
        match input {
            Input::Request(_) => self.id_count < usize::MAX,
            _ => false,
        }
    }

    fn respond_request(&mut self, request: Message<RequestDetail>) -> (response: ResponseDetail) {
        match request.body.detail {
            RequestDetail::Generate => {
                let mut id = String::new();
                if let Some(name) = &self.name {
                    id.append(name.as_str());
                    proof {
                        reveal_strlit("-");
                    }
                    id.append("-");
                    assert(id@ =~= name@ + seq!['-']);
                }
                push_decimal(&mut id, self.id_count);
                self.id_count += 1;
                ResponseDetail::GenerateOk { id }
            },
        }
    }

    /// Never called: the node sends no request, so no response can be
    /// meant for it, and `accepts` has none.
    fn respond_response(&mut self, response: Message<ResponseDetail>) {
    }

    /// Never called: the node asks for no timer, so no event can come, and
    /// `accepts` has none.
    fn respond_event(&mut self, event: ()) -> (sent: Vec<Message<RequestDetail>>) {
        Vec::new()
    }

    fn get_name(&self) -> (name: &str) {
        match &self.name {
            Some(name) => name.as_str(),
            None => vstd::pervasive::unreached(),
        }
    }
}

} // verus!
