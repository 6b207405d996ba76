//! A token payment and its wire format.
use vstd::prelude::*;
use crate::util::copy_vec;
use crate::wire::{
    lemma_var_bytes_round_trip, parse_var_bytes, var_bytes, DecodeError,
};
use crate::zero_copy_sink::ZeroCopySink;
use crate::zero_copy_source::ZeroCopySource;

verus! {

/// A payment of some amount of one token from a sender to a receiver.
#[derive(Debug, PartialEq, Eq)]
pub struct EsdtPayment {
    pub sender: Vec<u8>,
    pub receiver: Vec<u8>,
    /// The identifier of the token.
    pub token_id: Vec<u8>,
    /// The amount as an unsigned number, most significant byte first.
    pub amount: Vec<u8>,
}

/// An [`EsdtPayment`] as a mathematical value.
pub struct EsdtPaymentView {
    pub sender: Seq<u8>,
    pub receiver: Seq<u8>,
    pub token_id: Seq<u8>,
    pub amount: Seq<u8>,
}

impl View for EsdtPayment {
    type V = EsdtPaymentView;

    open spec fn view(&self) -> EsdtPaymentView {
        EsdtPaymentView {
            sender: self.sender@,
            receiver: self.receiver@,
            token_id: self.token_id@,
            amount: self.amount@,
        }
    }
}

impl EsdtPaymentView {
    /// Whether the length of each field can be written down.
    pub open spec fn valid(self) -> bool {
        &&& self.sender.len() <= u64::MAX
        &&& self.receiver.len() <= u64::MAX
        &&& self.token_id.len() <= u64::MAX
        &&& self.amount.len() <= u64::MAX
    }

    /// The wire form: the four fields in order, each with its length in front.
    pub open spec fn encoding(self) -> Seq<u8> {
        var_bytes(self.sender) + var_bytes(self.receiver) + var_bytes(self.token_id) + var_bytes(
            self.amount,
        )
    }

    /// Reads a payment from the front of `s`.
    pub open spec fn parse(s: Seq<u8>) -> Result<(EsdtPaymentView, int), DecodeError> {
        match parse_var_bytes(s) {
            Err(e) => Err(e),
            Ok((sender, a)) => match parse_var_bytes(s.skip(a)) {
                Err(e) => Err(e),
                Ok((receiver, b)) => match parse_var_bytes(s.skip(a + b)) {
                    Err(e) => Err(e),
                    Ok((token_id, c)) => match parse_var_bytes(s.skip(a + b + c)) {
                        Err(e) => Err(e),
                        Ok((amount, d)) => Ok(
                            (EsdtPaymentView { sender, receiver, token_id, amount }, a + b + c + d),
                        ),
                    },
                },
            },
        }
    }

    /// Decoding what was encoded gives the payment back.
    pub proof fn lemma_round_trip(self)
        requires
            self.valid(),
        ensures
            Self::parse(self.encoding()) == Ok::<(EsdtPaymentView, int), DecodeError>(
                (self, self.encoding().len() as int),
            ),
    {
        let s = self.encoding();
        let f1 = var_bytes(self.sender);
        let f2 = var_bytes(self.receiver);
        let f3 = var_bytes(self.token_id);
        let f4 = var_bytes(self.amount);
        let tail3 = f4;
        let tail2 = f3 + tail3;
        let tail1 = f2 + tail2;
        assert(s =~= f1 + tail1);
        lemma_var_bytes_round_trip(self.sender, tail1);
        let a = f1.len() as int;
        assert(s.skip(a) =~= f2 + tail2);
        lemma_var_bytes_round_trip(self.receiver, tail2);
        let b = f2.len() as int;
        assert(s.skip(a + b) =~= f3 + tail3);
        lemma_var_bytes_round_trip(self.token_id, tail3);
        let c = f3.len() as int;
        assert(s.skip(a + b + c) =~= f4 + Seq::<u8>::empty());
        lemma_var_bytes_round_trip(self.amount, Seq::<u8>::empty());
    }
}

impl Clone for EsdtPayment {
    fn clone(&self) -> (copy: Self)
        ensures
            copy@ == self@,
    {
        EsdtPayment {
            sender: copy_vec(&self.sender),
            receiver: copy_vec(&self.receiver),
            token_id: copy_vec(&self.token_id),
            amount: copy_vec(&self.amount),
        }
    }
}

impl EsdtPayment {
    /// Appends the wire form of the payment to `dest`.
    pub fn dep_encode(&self, dest: &mut Vec<u8>)
        ensures
            final(dest)@ == old(dest)@ + self@.encoding(),
    {
        let mut sink = ZeroCopySink::new();
        sink.write_var_bytes(self.sender.as_slice());
        sink.write_var_bytes(self.receiver.as_slice());
        sink.write_var_bytes(self.token_id.as_slice());
        sink.write_var_bytes(self.amount.as_slice());
        assert(sink@ =~= self@.encoding());
        let mut bytes = sink.get_sink();
        dest.append(&mut bytes);
    }

    /// Reads a payment from the front of `input`. Bytes after the payment are ignored.
    pub fn dep_decode(input: &[u8]) -> (decoded: Result<Self, DecodeError>)
        ensures
            match EsdtPaymentView::parse(input@) {
                Ok((payment, _)) => decoded is Ok && decoded->Ok_0@ == payment,
                Err(e) => decoded == Err::<Self, DecodeError>(e),
            },
    {
        let mut source = ZeroCopySource::new(input);
        assert(source.remaining() =~= input@);
        let sender = match source.next_var_bytes() {
            Some(val) => val,
            None => {
                return Err(DecodeError::InputTooShort);
            },
        };
        let ghost a = source.offset();
        let _ = source.len();
        assert(source.remaining() =~= input@.skip(a));
        let receiver = match source.next_var_bytes() {
            Some(val) => val,
            None => {
                return Err(DecodeError::InputTooShort);
            },
        };
        let ghost b = source.offset();
        let _ = source.len();
        assert(source.remaining() =~= input@.skip(b));
        let token_id = match source.next_var_bytes() {
            Some(val) => val,
            None => {
                return Err(DecodeError::InputTooShort);
            },
        };
        let ghost c = source.offset();
        let _ = source.len();
        assert(source.remaining() =~= input@.skip(c));
        let amount = match source.next_var_bytes() {
            Some(val) => val,
            None => {
                return Err(DecodeError::InputTooShort);
            },
        };
        Ok(EsdtPayment { sender, receiver, token_id, amount })
    }
}

} // verus!
