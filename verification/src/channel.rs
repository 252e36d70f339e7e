//! The sending side of the message channels between the tasks.

use embassy_sync::channel::DynamicSender;
use vstd::prelude::*;

verus! {

/// How many messages each channel between the tasks holds.
pub const MAX_MESSAGES_CHANNEL: usize = 15;

/// The sending side of a bounded channel, `embassy_sync::channel::DynamicSender`.
#[verifier::external_type_specification]
#[verifier::external_body]
#[verifier::reject_recursive_types(T)]
pub struct ExDynamicSender<'ch, T>(DynamicSender<'ch, T>);

/// The packets that have been handed to the channel through this handle, in order.
pub uninterp spec fn offered(sender: DynamicSender<'static, Vec<u8>>) -> Seq<Seq<u8>>;

/// Those of them that the channel has taken, in order: the others found no room.
pub uninterp spec fn accepted(sender: DynamicSender<'static, Vec<u8>>) -> Seq<Seq<u8>>;

/// Hands a packet to the channel, by `DynamicSender::try_send`, and says whether it was taken.
///
/// The packet joins those that were offered through the handle, and those that were taken if the
/// result says so; if not, there was no room for it, and it is dropped. Which of the two it is
/// depends on how fast the other tasks empty the channel, so that is not said.
#[verifier::external_body]
fn try_send(sender: &mut DynamicSender<'static, Vec<u8>>, packet: Vec<u8>) -> (taken: bool)
    ensures
        offered(*final(sender)) == offered(*old(sender)).push(packet@),
        accepted(*final(sender)) == if taken {
            accepted(*old(sender)).push(packet@)
        } else {
            accepted(*old(sender))
        },
{
    sender.try_send(packet).is_ok()
}

/// Whether `taken` can be what a channel takes of `offers`: each is taken or dropped, and what is
/// taken stays in order.
pub open spec fn takes(offers: Seq<Seq<u8>>, taken: Seq<Seq<u8>>) -> bool
    decreases offers.len(),
{
    if offers.len() == 0 {
        taken.len() == 0
    } else {
        ||| takes(offers.drop_last(), taken)
        ||| taken.len() > 0 && taken.last() == offers.last() && takes(
            offers.drop_last(),
            taken.drop_last(),
        )
    }
}

/// What went to a channel.
pub struct Sent {
    /// The packets that were handed to it.
    pub offered: Seq<Seq<u8>>,
    /// Those of them that it took.
    pub taken: Seq<Seq<u8>>,
}

impl Sent {
    /// After these packets were handed to the channel, of which it took some.
    pub open spec fn with(self, offers: Seq<Seq<u8>>, taken: Seq<Seq<u8>>) -> Sent {
        Sent { offered: self.offered + offers, taken: self.taken + taken }
    }

    /// Whether more packets may have gone to the channel since: the channel took, of those that
    /// were handed to it, some or all and nothing else.
    pub open spec fn grows_to(self, after: Sent) -> bool {
        exists|offers: Seq<Seq<u8>>, taken: Seq<Seq<u8>>|
            takes(offers, taken) && after == #[trigger] self.with(offers, taken)
    }
}

/// What a channel takes of packets that follow each other is what it takes of the first and then
/// what it takes of the others.
proof fn takes_adds_up(
    offers_1: Seq<Seq<u8>>,
    taken_1: Seq<Seq<u8>>,
    offers_2: Seq<Seq<u8>>,
    taken_2: Seq<Seq<u8>>,
)
    requires
        takes(offers_1, taken_1),
        takes(offers_2, taken_2),
    ensures
        takes(offers_1 + offers_2, taken_1 + taken_2),
    decreases offers_2.len(),
{
    if offers_2.len() == 0 {
        assert(offers_1 + offers_2 =~= offers_1);
        assert(taken_1 + taken_2 =~= taken_1);
    } else {
        let earlier = offers_2.drop_last();
        assert((offers_1 + offers_2).drop_last() =~= offers_1 + earlier);
        if takes(earlier, taken_2) {
            takes_adds_up(offers_1, taken_1, earlier, taken_2);
        } else {
            takes_adds_up(offers_1, taken_1, earlier, taken_2.drop_last());
            assert((taken_1 + taken_2).drop_last() =~= taken_1 + taken_2.drop_last());
        }
    }
}

/// Nothing went to a channel where nothing was sent.
pub(crate) proof fn growing_may_be_nothing(sent: Sent)
    ensures
        sent.grows_to(sent),
{
    let none = Seq::<Seq<u8>>::empty();
    assert(takes(none, none));
    assert(sent.with(none, none) == sent) by {
        assert(sent.offered + none =~= sent.offered);
        assert(sent.taken + none =~= sent.taken);
    }
}

/// What went to a channel in two turns went to it.
pub(crate) proof fn growing_adds_up(before: Sent, between: Sent, after: Sent)
    requires
        before.grows_to(between),
        between.grows_to(after),
    ensures
        before.grows_to(after),
{
    let (offers_1, taken_1) = choose|offers: Seq<Seq<u8>>, taken: Seq<Seq<u8>>|
        takes(offers, taken) && between == #[trigger] before.with(offers, taken);
    let (offers_2, taken_2) = choose|offers: Seq<Seq<u8>>, taken: Seq<Seq<u8>>|
        takes(offers, taken) && after == #[trigger] between.with(offers, taken);
    takes_adds_up(offers_1, taken_1, offers_2, taken_2);
    assert(before.with(offers_1 + offers_2, taken_1 + taken_2) == after) by {
        assert(before.offered + (offers_1 + offers_2) =~= between.offered + offers_2);
        assert(before.taken + (taken_1 + taken_2) =~= between.taken + taken_2);
    }
}

/// The sending side of a channel of packets. It is not copied, so that all that its owner hands to
/// the channel is handed over through it.
pub struct ChannelSender {
    sender: DynamicSender<'static, Vec<u8>>,
}

impl ChannelSender {
    /// The packets that have been handed to the channel, in order.
    pub closed spec fn offered(&self) -> Seq<Seq<u8>> {
        offered(self.sender)
    }

    /// Those of them that the channel has taken, in order.
    pub closed spec fn taken(&self) -> Seq<Seq<u8>> {
        accepted(self.sender)
    }

    /// What went to the channel.
    pub open spec fn sent(&self) -> Sent {
        Sent { offered: self.offered(), taken: self.taken() }
    }

    /// Sends through a handle of the channel.
    pub fn new(sender: DynamicSender<'static, Vec<u8>>) -> (channel: Self)
        ensures
            channel.offered() == offered(sender),
            channel.taken() == accepted(sender),
    {
        Self { sender }
    }

    /// Hands a packet to the channel, and says whether it was taken. There may be no room for it,
    /// and it is dropped then.
    pub fn try_send(&mut self, packet: Vec<u8>) -> (taken: bool)
        ensures
            final(self).offered() == old(self).offered().push(packet@),
            final(self).taken() == if taken {
                old(self).taken().push(packet@)
            } else {
                old(self).taken()
            },
            old(self).sent().grows_to(final(self).sent()),
    {
        let ghost bytes = packet@;
        let taken = try_send(&mut self.sender, packet);
        proof {
            let offers = seq![bytes];
            let takings = if taken {
                offers
            } else {
                Seq::empty()
            };
            assert(offers.drop_last() =~= Seq::<Seq<u8>>::empty());
            assert(takes(offers.drop_last(), Seq::empty()));
            assert(takes(offers, takings));
            assert(old(self).sent().with(offers, takings) == self.sent()) by {
                assert(self.offered() =~= old(self).offered() + offers);
                assert(self.taken() =~= old(self).taken() + takings);
            }
        }
        taken
    }
}

} // verus!
