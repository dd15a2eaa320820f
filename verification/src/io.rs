use vstd::prelude::*;

verus! {

/// An input capability: each call yields the next byte, or nothing when the
/// stream is exhausted for that step.  `taken()` is the history of bytes the
/// stream has yielded so far, which is what the machine's contracts speak
/// of.
pub trait InputStream: Sized {
    /// The bytes this stream has yielded so far, in order.  A stream that
    /// lives outside the verifier may leave the default model.
    open spec fn taken(&self) -> Seq<u8> {
        Seq::empty()
    }

    fn read_byte(&mut self) -> (r: Option<u8>)
        ensures
            match r {
                Some(b) => final(self).taken() == old(self).taken().push(b),
                None => final(self).taken() == old(self).taken(),
            },
    ;
}

/// An output capability: receives one character per `OUT` instruction.
/// `written()` is the history of characters received so far.
pub trait OutputStream: Sized {
    /// The characters this stream has received so far, in order.  A stream
    /// that lives outside the verifier may leave the default model.
    open spec fn written(&self) -> Seq<char> {
        Seq::empty()
    }

    fn write_char(&mut self, c: char)
        ensures
            final(self).written() == old(self).written().push(c),
    ;
}

/// An input stream with nothing to give: every read reports end of stream.
pub struct NullInput;

impl InputStream for NullInput {
    open spec fn taken(&self) -> Seq<u8> {
        Seq::empty()
    }

    fn read_byte(&mut self) -> (r: Option<u8>) {
        None
    }
}

/// An input stream that yields the bytes of a fixed buffer, in order, and
/// then reports end of stream forever.
pub struct SliceInput {
    data: Vec<u8>,
    position: usize,
}

impl SliceInput {
    /// The whole buffer this stream reads from.
    pub closed spec fn source(&self) -> Seq<u8> {
        self.data@
    }

    /// How many bytes have been yielded.
    pub closed spec fn cursor(&self) -> nat {
        self.position as nat
    }

    pub fn new(data: Vec<u8>) -> (r: Self)
        ensures
            r.source() == data@,
            r.cursor() == 0,
            r.taken() == Seq::<u8>::empty(),
    {
        SliceInput { data, position: 0 }
    }
}

impl InputStream for SliceInput {
    closed spec fn taken(&self) -> Seq<u8> {
        if self.position <= self.data@.len() {
            self.data@.take(self.position as int)
        } else {
            self.data@
        }
    }

    fn read_byte(&mut self) -> (r: Option<u8>)
        ensures
            final(self).source() == old(self).source(),
            old(self).cursor() < old(self).source().len() ==> r == Some(
                old(self).source()[old(self).cursor() as int],
            ) && final(self).cursor() == old(self).cursor() + 1,
            old(self).cursor() >= old(self).source().len() ==> r == None::<u8>
                && final(self).cursor() == old(self).cursor(),
    {
        if self.position < self.data.len() {
            let b = self.data[self.position];
            self.position = self.position + 1;
            proof {
                assert(self.data@.take(self.position as int) =~= self.data@.take(
                    self.position as int - 1,
                ).push(b));
            }
            Some(b)
        } else {
            None
        }
    }
}

/// An output stream that collects every character it receives.
pub struct BufferOutput {
    /// Everything received so far, in order.
    pub text: Vec<char>,
}

impl BufferOutput {
    pub fn new() -> (r: Self)
        ensures
            r.written() == Seq::<char>::empty(),
    {
        BufferOutput { text: Vec::new() }
    }
}

impl OutputStream for BufferOutput {
    open spec fn written(&self) -> Seq<char> {
        self.text@
    }

    fn write_char(&mut self, c: char) {
        self.text.push(c);
    }
}

} // verus!
