//! The mailbox of a relaying client: for each sender the texts received
//! from that sender, in the order of their arrival.
//!
//! The mailbox is filled by the handlers of inbound connections and
//! emptied when the user asks to see the messages. It holds at most
//! `limit` texts of one sender; a text beyond that is turned away.

use crate::assoc::{
    as_map, distinct, holds, lemma_as_map_at, lemma_as_map_lists, lemma_as_map_push,
    lemma_as_map_remove, lists,
};
use crate::packet::{Deserialize, Packet, PacketView};
use crate::request::{parse_command, Command, CommandView};
use vstd::prelude::*;

verus! {

/// The texts that a mailbox holds of `sender`: none where it has no entry.
pub open spec fn held(
    mailbox: Map<Seq<char>, Seq<Seq<char>>>,
    sender: Seq<char>,
) -> Seq<Seq<char>> {
    if mailbox.contains_key(sender) {
        mailbox[sender]
    } else {
        Seq::empty()
    }
}

/// No sender has more than `limit` texts in the mailbox.
pub open spec fn bounded(mailbox: Map<Seq<char>, Seq<Seq<char>>>, limit: nat) -> bool {
    forall|sender: Seq<char>| (#[trigger] held(mailbox, sender)).len() <= limit
}

/// The mailbox after a text from `sender` arrived: the text is appended
/// to the sender's texts unless the sender already has `limit` of them.
pub open spec fn delivered(
    mailbox: Map<Seq<char>, Seq<Seq<char>>>,
    limit: nat,
    sender: Seq<char>,
    text: Seq<char>,
) -> Map<Seq<char>, Seq<Seq<char>>> {
    if held(mailbox, sender).len() < limit {
        mailbox.insert(sender, held(mailbox, sender).push(text))
    } else {
        mailbox
    }
}

/// The mailbox after a peer sent `command`: a message is delivered under
/// the name it carries, and anything else is ignored.
pub open spec fn received(
    mailbox: Map<Seq<char>, Seq<Seq<char>>>,
    limit: nat,
    command: CommandView,
) -> Map<Seq<char>, Seq<Seq<char>>> {
    match command {
        CommandView::Message(sender, text) => delivered(
            mailbox,
            limit,
            sender,
            text,
        ),
        _ => mailbox,
    }
}

/// Boxes that each hold at most `limit` texts stand for a mailbox within
/// that limit.
proof fn lemma_boxes_bounded(boxes: Seq<(Seq<char>, Seq<Seq<char>>)>, limit: nat)
    requires
        distinct(boxes),
        forall|i: int| 0 <= i < boxes.len() ==> (#[trigger] boxes[i]).1.len() <= limit,
    ensures
        bounded(as_map(boxes), limit),
{
    assert forall|sender: Seq<char>| (#[trigger] held(as_map(boxes), sender)).len() <= limit by {
        if as_map(boxes).contains_key(sender) {
            let i = choose|i: int| 0 <= i < boxes.len() && (#[trigger] boxes[i]).0 == sender;
            lemma_as_map_at(boxes, i);
        }
    }
}

/// The mailbox after a peer sent the packets of one message: what the
/// command that they stand for leaves, and the mailbox as it was where
/// they stand for none.
pub open spec fn accepted(
    mailbox: Map<Seq<char>, Seq<Seq<char>>>,
    limit: nat,
    packets: Seq<PacketView>,
) -> Map<Seq<char>, Seq<Seq<char>>> {
    match parse_command(packets) {
        Some(command) => received(mailbox, limit, command),
        None => mailbox,
    }
}

/// The texts received from peers, by sender.
pub struct Mailbox {
    boxes: Vec<(String, Vec<String>)>,
    limit: usize,
}

impl View for Mailbox {
    type V = Map<Seq<char>, Seq<Seq<char>>>;

    closed spec fn view(&self) -> Map<Seq<char>, Seq<Seq<char>>> {
        as_map(self.boxes.deep_view())
    }
}

impl Mailbox {
    #[verifier::type_invariant]
    spec fn well_formed(&self) -> bool {
        &&& distinct(self.boxes.deep_view())
        &&& forall|i: int|
            0 <= i < self.boxes.deep_view().len() ==> (#[trigger] self.boxes.deep_view()[i]).1.len()
                <= self.limit
    }

    /// The most texts of one sender that the mailbox holds.
    pub closed spec fn limit(&self) -> nat {
        self.limit as nat
    }

    /// An empty mailbox that will hold at most `limit` texts of each
    /// sender.
    pub fn new(limit: usize) -> (mailbox: Mailbox)
        ensures
            mailbox@ == Map::<Seq<char>, Seq<Seq<char>>>::empty(),
            mailbox.limit() == limit,
    {
        let mailbox = Mailbox { boxes: Vec::new(), limit };
        proof {
            lemma_as_map_lists(mailbox.boxes.deep_view());
        }
        mailbox
    }

    /// Moves the boxes out and leaves none behind.
    fn take_boxes(&mut self) -> (boxes: Vec<(String, Vec<String>)>)
        ensures
            boxes == old(self).boxes,
            final(self).limit == old(self).limit,
            final(self).boxes@.len() == 0,
    {
        let mut boxes: Vec<(String, Vec<String>)> = Vec::new();
        core::mem::swap(&mut self.boxes, &mut boxes);
        boxes
    }

    /// Where the box of `sender` stands.
    fn position(&self, sender: &String) -> (at: Option<usize>)
        ensures
            match at {
                Some(i) => i < self.boxes@.len() && self.boxes.deep_view()[i as int].0
                    == sender@,
                None => !holds(self.boxes.deep_view(), sender@),
            },
    {
        let mut i: usize = 0;
        while i < self.boxes.len()
            invariant
                i <= self.boxes@.len(),
                forall|j: int| 0 <= j < i ==> (#[trigger] self.boxes.deep_view()[j]).0 != sender@,
            decreases self.boxes@.len() - i,
        {
            assert(self.boxes.deep_view()[i as int].0 == self.boxes@[i as int].0@);
            if self.boxes[i].0 == *sender {
                return Some(i);
            }
            i += 1;
        }
        None
    }

    /// Takes in a text from `sender`, behind the sender's earlier texts,
    /// and says whether there was room for it.
    pub fn deliver(&mut self, sender: String, text: String) -> (stored: bool)
        ensures
            stored == (held(old(self)@, sender@).len() < old(self).limit()),
            final(self)@ == delivered(old(self)@, old(self).limit(), sender@, text@),
            final(self).limit() == old(self).limit(),
            bounded(final(self)@, final(self).limit()),
    {
        let ghost before = self.boxes.deep_view();
        proof {
            use_type_invariant(&*self);
            lemma_boxes_bounded(before, self.limit as nat);
            lemma_delivery_stays_bounded(as_map(before), self.limit as nat, sender@, text@);
        }
        match self.position(&sender) {
            Some(i) => {
                proof {
                    lemma_as_map_at(before, i as int);
                    lemma_as_map_remove(before, i as int);
                }
                if self.boxes[i].1.len() >= self.limit {
                    assert(before[i as int].1.len() == self.boxes@[i as int].1@.len());
                    return false;
                }
                assert(before[i as int].1.len() == self.boxes@[i as int].1@.len());
                let mut boxes = self.take_boxes();
                let (name, mut texts) = boxes.remove(i);
                assert(boxes.deep_view() =~= before.remove(i as int));
                assert(texts.deep_view() == before[i as int].1);
                let ghost earlier = texts.deep_view();
                texts.push(text);
                assert(texts.deep_view() =~= earlier.push(text@));
                proof {
                    lemma_as_map_push(boxes.deep_view(), name@, texts.deep_view());
                }
                let ghost shorter = boxes.deep_view();
                boxes.push((name, texts));
                assert(boxes.deep_view() =~= shorter.push((name@, texts.deep_view())));
                assert(as_map(boxes.deep_view()) =~= as_map(before).insert(
                    sender@,
                    earlier.push(text@),
                ));
                self.boxes = boxes;
                true
            },
            None => {
                if self.limit == 0 {
                    return false;
                }
                let mut texts: Vec<String> = Vec::new();
                texts.push(text);
                assert(texts.deep_view() =~= Seq::<Seq<char>>::empty().push(text@));
                proof {
                    lemma_as_map_push(before, sender@, texts.deep_view());
                }
                let mut boxes = self.take_boxes();
                boxes.push((sender, texts));
                assert(boxes.deep_view() =~= before.push((sender@, texts.deep_view())));
                self.boxes = boxes;
                true
            },
        }
    }

    /// Takes a command that a peer sent: a message is delivered under the
    /// name it carries, anything else is ignored. Says whether a text was
    /// stored.
    pub fn receive(&mut self, command: Command) -> (stored: bool)
        ensures
            final(self)@ == received(old(self)@, old(self).limit(), command@),
            final(self).limit() == old(self).limit(),
            bounded(final(self)@, final(self).limit()),
            stored == (command@ matches CommandView::Message(sender, _) && held(
                old(self)@,
                sender,
            ).len() < old(self).limit()),
    {
        match command {
            Command::Message(sender, text) => self.deliver(sender, text),
            _ => {
                proof {
                    use_type_invariant(&*self);
                    lemma_boxes_bounded(self.boxes.deep_view(), self.limit as nat);
                }
                false
            },
        }
    }

    /// Takes the packets of one message that a peer sent. Packets that
    /// stand for a message command are delivered under the name they
    /// carry; any other command is ignored, and so are packets that stand
    /// for no command. Says whether a text was stored.
    pub fn accept(&mut self, packets: &Vec<Packet>) -> (stored: bool)
        ensures
            final(self)@ == accepted(old(self)@, old(self).limit(), packets.deep_view()),
            final(self).limit() == old(self).limit(),
            bounded(final(self)@, final(self).limit()),
            stored == (parse_command(packets.deep_view()) matches Some(
                CommandView::Message(sender, _),
            ) && held(old(self)@, sender).len() < old(self).limit()),
    {
        let command: Option<Command> = packets.deserialize();
        match command {
            Some(command) => self.receive(command),
            None => {
                proof {
                    use_type_invariant(&*self);
                    lemma_boxes_bounded(self.boxes.deep_view(), self.limit as nat);
                }
                false
            },
        }
    }

    /// Empties the mailbox and hands out what it held: each sender once,
    /// with that sender's texts in the order of their arrival.
    pub fn drain(&mut self) -> (all: Vec<(String, Vec<String>)>)
        ensures
            lists(all.deep_view(), old(self)@),
            final(self)@ == Map::<Seq<char>, Seq<Seq<char>>>::empty(),
            final(self).limit() == old(self).limit(),
    {
        proof {
            use_type_invariant(&*self);
            lemma_as_map_lists(self.boxes.deep_view());
        }
        let all = self.take_boxes();
        proof {
            lemma_as_map_lists(self.boxes.deep_view());
        }
        all
    }
}

/// Delivering a text keeps the mailbox within its limit.
pub proof fn lemma_delivery_stays_bounded(
    mailbox: Map<Seq<char>, Seq<Seq<char>>>,
    limit: nat,
    sender: Seq<char>,
    text: Seq<char>,
)
    requires
        bounded(mailbox, limit),
    ensures
        bounded(delivered(mailbox, limit, sender, text), limit),
{
    let next = delivered(mailbox, limit, sender, text);
    assert forall|other: Seq<char>| (#[trigger] held(next, other)).len() <= limit by {
        assert(held(mailbox, other).len() <= limit);
    }
}

/// A sender's texts come out in the order in which they went in: after
/// two deliveries for which there was room, the first text stands
/// directly before the second, behind what the sender had before.
pub proof fn lemma_arrival_order(
    mailbox: Map<Seq<char>, Seq<Seq<char>>>,
    limit: nat,
    sender: Seq<char>,
    first: Seq<char>,
    second: Seq<char>,
)
    requires
        held(mailbox, sender).len() + 2 <= limit,
    ensures
        held(delivered(delivered(mailbox, limit, sender, first), limit, sender, second), sender)
            == held(mailbox, sender).push(first).push(second),
{
}

} // verus!
