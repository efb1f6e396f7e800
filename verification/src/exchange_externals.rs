use crate::scalar::Scalar;
use crate::sparse_matrix::{lemma_sum_to_monotone, sum_to, SparseMatrix};
use vstd::prelude::*;

verus! {

/// Why an exchange was refused.
#[derive(Debug, Clone, Copy, PartialEq, Eq, Structural)]
pub enum ExchangeError {
    /// The messages are not one per neighbour, each of the length agreed on.
    WrongShape,
}

/// The first `n` messages, one after the other.
pub open spec fn joined<T>(messages: Seq<Vec<T>>, n: nat) -> Seq<T>
    decreases n,
{
    if n == 0 {
        Seq::empty()
    } else {
        joined(messages, (n - 1) as nat) + messages[n - 1]@
    }
}

/// There is one message for each length, and it has that length.
pub open spec fn shapes_fit<T>(messages: Seq<Vec<T>>, lengths: Seq<usize>) -> bool {
    &&& messages.len() == lengths.len()
    &&& forall|i: int| 0 <= i < messages.len() ==> (#[trigger] messages[i])@.len() == lengths[i]
}

/// Messages of the agreed lengths are together as long as the lengths' sum.
pub proof fn lemma_joined_len<T>(messages: Seq<Vec<T>>, lengths: Seq<usize>, n: nat)
    requires
        shapes_fit(messages, lengths),
        n <= messages.len(),
    ensures
        joined(messages, n).len() == sum_to(lengths, n),
    decreases n,
{
    if n > 0 {
        lemma_joined_len(messages, lengths, (n - 1) as nat);
    }
}

/// The values of `vector` that the neighbours need, in sending order.
pub open spec fn packed<T>(matrix: &SparseMatrix<T>, vector: Seq<T>) -> Seq<T> {
    Seq::new(
        matrix.total_to_be_sent as nat,
        |i: int| vector[matrix.elements_to_send@[i] as int],
    )
}

/// `after` is `before` with the values of `vector` that the neighbours need
/// in its send buffer, and `messages` cuts the buffer into one message for
/// each neighbour.
pub open spec fn packed_into<T>(
    before: SparseMatrix<T>,
    after: SparseMatrix<T>,
    vector: Seq<T>,
    messages: Seq<Vec<T>>,
) -> bool {
    &&& after == (SparseMatrix { send_buffer: after.send_buffer, ..before })
    &&& after.send_buffer@ == packed(&before, vector)
    &&& shapes_fit(messages, before.send_length@)
    &&& joined(messages, messages.len()) == after.send_buffer@
}

/// Copies the values that the neighbours need from `vector` into the send
/// buffer and returns them as one message for each neighbour.
///
/// Entry `i` of the send buffer is the value of the row `elements_to_send[i]`;
/// the message for neighbour `n` is the stretch of the buffer that follows
/// those of the neighbours before it and has length `send_length[n]`.
pub fn pack_externals<T: Scalar>(matrix: &mut SparseMatrix<T>, vector: &[T]) -> (messages: Vec<
    Vec<T>,
>)
    requires
        old(matrix).halo_wf(),
        old(matrix).local_nrow <= vector@.len(),
    ensures
        final(matrix).halo_wf(),
        packed_into(*old(matrix), *final(matrix), vector@, messages@),
{
    let total = matrix.total_to_be_sent;
    let mut send_buffer: Vec<T> = Vec::with_capacity(total);
    let mut i: usize = 0;
    while i < total
        invariant
            i <= total,
            total == matrix.total_to_be_sent,
            *matrix == *old(matrix),
            matrix.halo_wf(),
            matrix.local_nrow <= vector@.len(),
            send_buffer@.len() == i,
            forall|i2: int|
                0 <= i2 < i ==> #[trigger] send_buffer@[i2]
                    == vector@[matrix.elements_to_send@[i2] as int],
        decreases total - i,
    {
        send_buffer.push(vector[matrix.elements_to_send[i] as usize]);
        i += 1;
    }
    let ghost lens = matrix.send_length@;
    let mut messages: Vec<Vec<T>> = Vec::with_capacity(matrix.send_length.len());
    let mut start: usize = 0;
    let mut n: usize = 0;
    while n < matrix.send_length.len()
        invariant
            n <= lens.len(),
            lens == matrix.send_length@,
            total == sum_to(lens, lens.len()),
            send_buffer@.len() == total,
            start == sum_to(lens, n as nat),
            messages@.len() == n,
            forall|n2: int| 0 <= n2 < n ==> (#[trigger] messages@[n2])@.len() == lens[n2],
            joined(messages@, n as nat) == send_buffer@.take(start as int),
        decreases lens.len() - n,
    {
        let len = matrix.send_length[n];
        proof {
            lemma_sum_to_monotone(lens, (n + 1) as nat, lens.len());
        }
        let mut message: Vec<T> = Vec::with_capacity(len);
        let mut k: usize = 0;
        while k < len
            invariant
                k <= len,
                start + len <= total,
                send_buffer@.len() == total,
                message@ == send_buffer@.subrange(start as int, start + k),
            decreases len - k,
        {
            message.push(send_buffer[start + k]);
            assert(message@ == send_buffer@.subrange(start as int, start + k + 1));
            k += 1;
        }
        let ghost before = messages@;
        messages.push(message);
        proof {
            lemma_joined_prefix(before, messages@, n as nat);
            assert(joined(messages@, (n + 1) as nat) == send_buffer@.take(start + len));
        }
        start += len;
        n += 1;
    }
    proof {
        assert(send_buffer@.take(total as int) == send_buffer@);
        assert(send_buffer@ =~= packed(matrix, vector@));
    }
    matrix.send_buffer = send_buffer;
    messages
}

/// What the first `n` messages join to depends only on those messages.
pub proof fn lemma_joined_prefix<T>(a: Seq<Vec<T>>, b: Seq<Vec<T>>, n: nat)
    requires
        n <= a.len(),
        n <= b.len(),
        forall|k: int| 0 <= k < n ==> a[k] == b[k],
    ensures
        joined(a, n) == joined(b, n),
    decreases n,
{
    if n > 0 {
        lemma_joined_prefix(a, b, (n - 1) as nat);
    }
}

/// Extends the owned part of a vector by the values received from the
/// neighbours, so that it has a value for every local column.
///
/// `received` holds one message for each neighbour, in the neighbours'
/// order. The messages are appended in that order. If they are not as many
/// and as long as the setup agreed on, nothing is appended.
pub fn exchange_externals<T: Scalar>(
    matrix: &SparseMatrix<T>,
    vector: &mut Vec<T>,
    received: &[Vec<T>],
) -> (res: Result<(), ExchangeError>)
    requires
        matrix.halo_wf(),
        old(vector)@.len() == matrix.local_nrow,
    ensures
        res is Ok <==> shapes_fit(received@, matrix.recv_length@),
        res is Ok ==> final(vector)@ == old(vector)@ + joined(received@, received@.len())
            && final(vector)@.len() == matrix.local_ncol,
        res matches Err(e) ==> e == ExchangeError::WrongShape && final(vector)@ == old(vector)@,
{
    if received.len() != matrix.recv_length.len() {
        return Err(ExchangeError::WrongShape);
    }
    let mut n: usize = 0;
    while n < received.len()
        invariant
            n <= received@.len(),
            received@.len() == matrix.recv_length@.len(),
            forall|n2: int|
                0 <= n2 < n ==> (#[trigger] received@[n2])@.len() == matrix.recv_length@[n2],
        decreases received@.len() - n,
    {
        if received[n].len() != matrix.recv_length[n] {
            return Err(ExchangeError::WrongShape);
        }
        n += 1;
    }
    proof {
        lemma_joined_len(received@, matrix.recv_length@, received@.len());
    }
    let mut n: usize = 0;
    while n < received.len()
        invariant
            n <= received@.len(),
            shapes_fit(received@, matrix.recv_length@),
            vector@ == old(vector)@ + joined(received@, n as nat),
        decreases received@.len() - n,
    {
        let message = &received[n];
        let ghost base = vector@;
        let mut k: usize = 0;
        while k < message.len()
            invariant
                k <= message@.len(),
                vector@ == base + message@.take(k as int),
            decreases message@.len() - k,
        {
            vector.push(message[k]);
            assert(vector@ == base + message@.take(k + 1));
            k += 1;
        }
        proof {
            assert(message@.take(message@.len() as int) == message@);
            assert(vector@ == old(vector)@ + joined(received@, (n + 1) as nat));
        }
        n += 1;
    }
    Ok(())
}

/// Every entry of `v` is `c`.
pub open spec fn all_equal<T>(v: Seq<T>, c: T) -> bool {
    forall|i: int| 0 <= i < v.len() ==> #[trigger] v[i] == c
}

/// Messages that hold only `c` join to a sequence that holds only `c`.
pub proof fn lemma_joined_all_equal<T>(messages: Seq<Vec<T>>, c: T, n: nat)
    requires
        n <= messages.len(),
        forall|i: int| 0 <= i < messages.len() ==> all_equal((#[trigger] messages[i])@, c),
    ensures
        all_equal(joined(messages, n), c),
    decreases n,
{
    if n > 0 {
        lemma_joined_all_equal(messages, c, (n - 1) as nat);
        let head = joined(messages, (n - 1) as nat);
        let last = messages[n - 1]@;
        assert(all_equal(last, c));
        assert forall|i: int| 0 <= i < (head + last).len() implies #[trigger] (head + last)[i]
            == c by {
            if i >= head.len() {
                assert(last[i - head.len()] == c);
            }
        }
    }
}

/// An exchange among processes whose owned vectors are all ones leaves each
/// of them with an extended vector that is all ones: every value that is
/// sent is a one, and the owned ones followed by received ones are a one for
/// every local column.
pub proof fn lemma_exchange_keeps_ones<T: Scalar>(
    matrix: SparseMatrix<T>,
    vector: Seq<T>,
    received: Seq<Vec<T>>,
)
    requires
        matrix.halo_wf(),
        vector.len() == matrix.local_nrow,
        all_equal(vector, T::of_int(1)),
        shapes_fit(received, matrix.recv_length@),
        forall|i: int| 0 <= i < received.len() ==> all_equal((#[trigger] received[i])@, T::of_int(1)),
    ensures
        forall|i: int|
            0 <= i < matrix.total_to_be_sent ==> vector[#[trigger] matrix.elements_to_send@[i] as int]
                == T::of_int(1),
        (vector + joined(received, received.len())).len() == matrix.local_ncol,
        all_equal(vector + joined(received, received.len()), T::of_int(1)),
{
    lemma_joined_len(received, matrix.recv_length@, received.len());
    lemma_joined_all_equal(received, T::of_int(1), received.len());
    let tail = joined(received, received.len());
    assert forall|i: int| 0 <= i < (vector + tail).len() implies #[trigger] (vector + tail)[i]
        == T::of_int(1) by {
        if i >= vector.len() {
            assert(tail[i - vector.len()] == T::of_int(1));
        }
    }
}

} // verus!
