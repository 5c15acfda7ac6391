//! What holds of a request on its whole way over the line and back.

use vstd::prelude::*;

use crate::compute;
use crate::frame_reader;
use crate::frame_reader::{Outcome, ReadState, ReaderModel};
use crate::protocol;
use crate::protocol::{FrameModel, MAX_PAYLOAD_LEN};
use crate::reader_laws;
use crate::receiver;
use crate::sender;
use crate::sender::{CollectorModel, ReceivedModel};

verus! {

/// A reader that has seen nothing but `wire`.
pub open spec fn reader_with(wire: Seq<u8>) -> ReaderModel {
    ReaderModel { state: ReadState::Syncing, buffer: wire }
}

/// A request that goes over the line is read as it was built and answered with a product; the
/// answer goes back and is stored at the request's number. (A request whose second matrix is of
/// shape zero by zero, and frames that are too long, are left out.)
pub proof fn lemma_request_gets_its_answer(
    request: FrameModel,
    rows_a: u8,
    cols_a: u8,
    cols_b: u8,
    number: u8,
    seed: u32,
    product: Seq<u32>,
    c: CollectorModel,
)
    requires
        sender::is_request(request, rows_a, cols_a, cols_b, number, seed),
        !(cols_a == 0 && cols_b == 0),
        product.len() == rows_a * cols_b,
        protocol::payload_of(request).len() <= MAX_PAYLOAD_LEN,
        protocol::payload_of(receiver::answer(request, product)).len() <= MAX_PAYLOAD_LEN,
        number < c.responses.len(),
        c.responses[number as int] is None,
        c.received < c.responses.len(),
    ensures
        reader_laws::drain(reader_with(protocol::wire_of(request))).0 == seq![
            Outcome::Parsed(request),
        ],
        receiver::answer(request, product) is Result,
        ({
            let reply = receiver::answer(request, product);
            let (reports, after, last) = sender::collect(
                c,
                reader_with(protocol::wire_of(reply)),
            );
            &&& reports == seq![
                ReceivedModel::Stored { number: number as nat, count: c.received + 1 },
            ]
            &&& after.responses == c.responses.update(number as int, Some(reply))
            &&& after.received == c.received + 1
            &&& last == reader_with(Seq::<u8>::empty())
        }),
{
    sender::lemma_request_is_read(request, rows_a, cols_a, cols_b, number, seed);
    sender::lemma_request_is_accepted(request, rows_a, cols_a, cols_b, number, seed);
    assert(compute::product_dims(request).elements() == rows_a * cols_b);
    receiver::lemma_answer_is_well_formed(request, product);
    let reply = receiver::answer(request, product);
    let none = Seq::<u8>::empty();
    receiver::lemma_answer_is_read(request, product, none);
    assert(protocol::wire_of(reply) + none =~= protocol::wire_of(reply));
    let next = reader_with(none);
    let verdict = c.verdict(reply);
    let rest = sender::collect(c.accept(reply), next);
    assert(frame_reader::advance(next).0 is None);
    assert(frame_reader::advance(next).1 =~= next);
    assert(rest.0 =~= Seq::<ReceivedModel>::empty());
    assert(sender::collect(c, reader_with(protocol::wire_of(reply))).0 =~= seq![verdict] + rest.0);
    assert(seq![verdict] + rest.0 =~= seq![verdict]);
}

} // verus!
