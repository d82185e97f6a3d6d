use vstd::prelude::*;
use vstd::slice::slice_subrange;
use bitcoin::blockdata::script::Builder;
use crate::bytes::{append_range, copy_range};
use crate::script::{
    builder_bytes, into_bytes, push_bytes, push_opcode, push_prefix, MAX_SCRIPT_ELEMENT_SIZE,
    OP_CHECKSIG, OP_ENDIF, OP_FALSE, OP_IF, OP_PUSHDATA1, OP_PUSHDATA2, OP_PUSHDATA4,
};

verus! {

/// A payload and its MIME type.
#[derive(Clone, Debug, PartialEq, Eq)]
pub struct Inscription {
    pub content_type: Vec<u8>,
    pub body: Vec<u8>,
}

/// What an inscription holds, as mathematical byte strings.
pub ghost struct InscriptionView {
    pub content_type: Seq<u8>,
    pub body: Seq<u8>,
}

impl View for Inscription {
    type V = InscriptionView;

    open spec fn view(&self) -> InscriptionView {
        InscriptionView { content_type: self.content_type@, body: self.body@ }
    }
}

/// The bytes `ord`, which mark an envelope as an inscription.
pub open spec fn protocol_id() -> Seq<u8> {
    seq![0x6fu8, 0x72u8, 0x64u8]
}

/// The tag that announces the content type: the number one, as one byte.
pub open spec fn content_type_tag() -> Seq<u8> {
    seq![1u8]
}

/// The pushes that carry a body: chunk after chunk of at most 520 bytes,
/// none for an empty body.
pub open spec fn body_pushes(body: Seq<u8>) -> Seq<u8>
    decreases body.len(),
{
    if body.len() == 0 {
        Seq::empty()
    } else {
        let n = if body.len() <= MAX_SCRIPT_ELEMENT_SIZE {
            body.len() as int
        } else {
            MAX_SCRIPT_ELEMENT_SIZE as int
        };
        push_bytes(body.take(n)) + body_pushes(body.skip(n))
    }
}

/// What comes before the body's pushes in an envelope.
pub open spec fn envelope_head(content_type: Seq<u8>) -> Seq<u8> {
    seq![OP_FALSE, OP_IF] + push_bytes(protocol_id()) + push_bytes(content_type_tag())
        + push_bytes(content_type) + push_bytes(Seq::empty())
}

/// The envelope of an inscription: a branch that never runs, holding the
/// protocol's mark, the tagged content type, the body's marker and the body.
pub open spec fn envelope(inscription: InscriptionView) -> Seq<u8> {
    envelope_head(inscription.content_type) + body_pushes(inscription.body) + seq![OP_ENDIF]
}

/// The reveal script of an inscription under the key `public_key`: a
/// signature check against the key, then the envelope.
pub open spec fn reveal_script_bytes(public_key: Seq<u8>, inscription: InscriptionView) -> Seq<u8> {
    push_bytes(public_key) + seq![OP_CHECKSIG] + envelope(inscription)
}

/// A data push read from the front of `script`: the data, and how many
/// bytes of the script the push takes.
#[verifier::opaque]
pub open spec fn read_push(script: Seq<u8>) -> Option<(Seq<u8>, nat)> {
    if script.len() == 0 {
        None
    } else if script[0] < OP_PUSHDATA1 {
        cut(script, 1, script[0] as nat)
    } else if script[0] == OP_PUSHDATA1 && script.len() >= 2 {
        cut(script, 2, script[1] as nat)
    } else if script[0] == OP_PUSHDATA2 && script.len() >= 3 {
        cut(script, 3, (script[1] + 0x100 * script[2]) as nat)
    } else if script[0] == OP_PUSHDATA4 && script.len() >= 5 {
        cut(
            script,
            5,
            (script[1] + 0x100 * script[2] + 0x10000 * script[3] + 0x1000000 * script[4]) as nat,
        )
    } else {
        None
    }
}

/// The `len` bytes of `script` after its first `header` bytes, with the
/// number of bytes up to their end, if the script is that long.
pub open spec fn cut(script: Seq<u8>, header: nat, len: nat) -> Option<(Seq<u8>, nat)> {
    if header + len <= script.len() {
        Some((script.subrange(header as int, (header + len) as int), header + len))
    } else {
        None
    }
}

/// The data of the pushes that `script` holds up to its closing `OP_ENDIF`,
/// joined; nothing may follow the `OP_ENDIF`.
pub open spec fn read_body(script: Seq<u8>) -> Option<Seq<u8>>
    decreases script.len(),
{
    if script.len() == 0 {
        None
    } else if script[0] == OP_ENDIF {
        if script.len() == 1 {
            Some(Seq::empty())
        } else {
            None
        }
    } else {
        match read_push(script) {
            Some((data, used)) if 0 < used <= script.len() => match read_body(script.skip(used as int)) {
                Some(rest) => Some(data + rest),
                None => None,
            },
            _ => None,
        }
    }
}

/// The inscription that an envelope holds, if `script` is an envelope.
pub open spec fn read_envelope(script: Seq<u8>) -> Option<InscriptionView> {
    if script.len() >= 2 && script[0] == OP_FALSE && script[1] == OP_IF {
        let s1 = script.skip(2);
        match read_push(s1) {
            Some((id, n1)) if id == protocol_id() => {
                let s2 = s1.skip(n1 as int);
                match read_push(s2) {
                    Some((tag, n2)) if tag == content_type_tag() => {
                        let s3 = s2.skip(n2 as int);
                        match read_push(s3) {
                            Some((content_type, n3)) => {
                                let s4 = s3.skip(n3 as int);
                                if s4.len() > 0 && s4[0] == OP_FALSE {
                                    match read_body(s4.skip(1)) {
                                        Some(body) => Some(InscriptionView { content_type, body }),
                                        None => None,
                                    }
                                } else {
                                    None
                                }
                            },
                            None => None,
                        }
                    },
                    _ => None,
                }
            },
            _ => None,
        }
    } else {
        None
    }
}

/// The inscription that a reveal script holds: the script must check a
/// signature against a 32-byte key and go on with an envelope.
pub open spec fn read_reveal_script(script: Seq<u8>) -> Option<InscriptionView> {
    if script.len() >= 34 && script[0] == 32 && script[33] == OP_CHECKSIG {
        read_envelope(script.skip(34))
    } else {
        None
    }
}

/// The four bytes of a length below four gigabytes, least first, give
/// the length back.
proof fn lemma_length_bytes(len: nat)
    requires
        len < 0x1_0000_0000,
    ensures
        len % 0x100 + 0x100 * ((len / 0x100) % 0x100) + 0x10000 * ((len / 0x10000) % 0x100)
            + 0x1000000 * (len / 0x1000000) == len,
        len / 0x1000000 < 0x100,
        len < 0x10000 ==> len % 0x100 + 0x100 * (len / 0x100) == len && len / 0x100 < 0x100,
{
}

/// A push of fewer than four gigabytes is read back as it was written,
/// whatever follows it.
pub proof fn lemma_read_push(data: Seq<u8>, rest: Seq<u8>)
    requires
        data.len() < 0x1_0000_0000,
    ensures
        read_push(push_bytes(data) + rest) == Some((data, push_bytes(data).len())),
        (push_bytes(data) + rest).skip(push_bytes(data).len() as int) == rest,
        push_bytes(data).len() > data.len(),
        push_bytes(data)[0] != OP_ENDIF,
{
    reveal(read_push);
    let len = data.len();
    let prefix = push_prefix(len);
    let script = push_bytes(data) + rest;
    let header = prefix.len();
    lemma_length_bytes(len);
    assert(script.subrange(header as int, (header + len) as int) =~= data);
    assert(script.skip(push_bytes(data).len() as int) =~= rest);
    assert(forall|i: int| 0 <= i < header ==> script[i] == prefix[i]);
    if len < 0x4c {
        assert(script[0] == len as u8);
    } else if len < 0x100 {
        assert(script[0] == OP_PUSHDATA1);
        assert(script[1] == len as u8);
    } else if len < 0x10000 {
        assert(script[0] == OP_PUSHDATA2);
        assert(script[1] == (len % 0x100) as u8);
        assert(script[2] == (len / 0x100) as u8);
    } else {
        assert(script[0] == OP_PUSHDATA4);
        assert(script[1] == (len % 0x100) as u8);
        assert(script[2] == ((len / 0x100) % 0x100) as u8);
        assert(script[3] == ((len / 0x10000) % 0x100) as u8);
        assert(script[4] == (len / 0x1000000) as u8);
    }
}

/// The pushes of a body, closed by `OP_ENDIF`, are read back as the body.
pub proof fn lemma_read_body(body: Seq<u8>)
    ensures
        read_body(body_pushes(body) + seq![OP_ENDIF]) == Some(body),
    decreases body.len(),
{
    if body.len() == 0 {
        assert(body_pushes(body) + seq![OP_ENDIF] =~= seq![OP_ENDIF]);
        assert(body =~= Seq::empty());
    } else {
        let n = if body.len() <= MAX_SCRIPT_ELEMENT_SIZE {
            body.len() as int
        } else {
            MAX_SCRIPT_ELEMENT_SIZE as int
        };
        let chunk = body.take(n);
        let rest = body_pushes(body.skip(n)) + seq![OP_ENDIF];
        let script = body_pushes(body) + seq![OP_ENDIF];
        assert(script =~= push_bytes(chunk) + rest);
        lemma_read_push(chunk, rest);
        lemma_read_body(body.skip(n));
        assert(script[0] == push_bytes(chunk)[0]);
        assert(chunk + body.skip(n) =~= body);
    }
}

/// Reading the envelope of an inscription gives the inscription back.
pub proof fn lemma_read_envelope(inscription: InscriptionView)
    requires
        inscription.content_type.len() < 0x1_0000_0000,
    ensures
        read_envelope(envelope(inscription)) == Some(inscription),
{
    let script = envelope(inscription);
    let tail = body_pushes(inscription.body) + seq![OP_ENDIF];
    let s4 = push_bytes(Seq::<u8>::empty()) + tail;
    let s3 = push_bytes(inscription.content_type) + s4;
    let s2 = push_bytes(content_type_tag()) + s3;
    let s1 = push_bytes(protocol_id()) + s2;
    assert(script =~= seq![OP_FALSE, OP_IF] + s1);
    assert(script.skip(2) =~= s1);
    lemma_read_push(protocol_id(), s2);
    lemma_read_push(content_type_tag(), s3);
    lemma_read_push(inscription.content_type, s4);
    assert(push_bytes(Seq::<u8>::empty()) =~= seq![OP_FALSE]);
    assert(s4.skip(1) =~= tail);
    lemma_read_body(inscription.body);
}

/// Round trip: reading the reveal script that was built for an inscription
/// gives back its content type and its body, byte for byte.
pub proof fn lemma_reveal_script_round_trip(public_key: Seq<u8>, inscription: InscriptionView)
    requires
        public_key.len() == 32,
        inscription.content_type.len() < 0x1_0000_0000,
    ensures
        read_reveal_script(reveal_script_bytes(public_key, inscription)) == Some(inscription),
{
    let script = reveal_script_bytes(public_key, inscription);
    assert(push_bytes(public_key).len() == 33);
    assert(script.skip(34) =~= envelope(inscription));
    lemma_read_envelope(inscription);
}

/// Finds the data push that begins at `at`: where its data begins and ends.
fn push_at(script: &[u8], at: usize) -> (r: Option<(usize, usize)>)
    requires
        at <= script@.len(),
    ensures
        match r {
            Some((start, end)) => at < start <= end <= script@.len() && read_push(
                script@.skip(at as int),
            ) == Some((script@.subrange(start as int, end as int), (end - at) as nat)),
            None => read_push(script@.skip(at as int)) is None,
        },
{
    reveal(read_push);
    let len = script.len();
    if at >= len {
        return None;
    }
    let left = len - at;
    let op = script[at];
    let ghost rest = script@.skip(at as int);
    assert(rest[0] == op);
    let header: usize;
    let size: usize;
    if op < OP_PUSHDATA1 {
        header = 1;
        size = op as usize;
    } else if op == OP_PUSHDATA1 && left >= 2 {
        assert(rest[1] == script@[at + 1]);
        header = 2;
        size = script[at + 1] as usize;
    } else if op == OP_PUSHDATA2 && left >= 3 {
        assert(rest[1] == script@[at + 1] && rest[2] == script@[at + 2]);
        header = 3;
        size = script[at + 1] as usize + 0x100 * (script[at + 2] as usize);
    } else if op == OP_PUSHDATA4 && left >= 5 {
        assert(rest[1] == script@[at + 1] && rest[2] == script@[at + 2]);
        assert(rest[3] == script@[at + 3] && rest[4] == script@[at + 4]);
        header = 5;
        size = script[at + 1] as usize + 0x100 * (script[at + 2] as usize) + 0x10000 * (script[at
            + 3] as usize) + 0x1000000 * (script[at + 4] as usize);
    } else {
        return None;
    }
    if size <= left - header {
        assert(rest.subrange(header as int, header + size) =~= script@.subrange(
            at + header,
            at + header + size,
        ));
        Some((at + header, at + header + size))
    } else {
        None
    }
}

/// Reads the data push that begins at `at` if it carries `expected`:
/// where the push ends.
fn expect_push(script: &[u8], at: usize, expected: &[u8]) -> (r: Option<usize>)
    requires
        at <= script@.len(),
    ensures
        match r {
            Some(end) => at < end <= script@.len() && read_push(script@.skip(at as int)) == Some(
                (expected@, (end - at) as nat),
            ),
            None => match read_push(script@.skip(at as int)) {
                Some((data, used)) => data != expected@,
                None => true,
            },
        },
{
    let (start, end) = match push_at(script, at) {
        Some(found) => found,
        None => {
            return None;
        },
    };
    if end - start != expected.len() {
        return None;
    }
    let mut i: usize = 0;
    while i < expected.len()
        invariant
            i <= expected@.len(),
            start <= end <= script@.len(),
            end - start == expected@.len(),
            read_push(script@.skip(at as int)) == Some(
                (script@.subrange(start as int, end as int), (end - at) as nat),
            ),
            forall|j: int| 0 <= j < i ==> script@[start + j] == expected@[j],
        decreases expected@.len() - i,
    {
        if script[start + i] != expected[i] {
            assert(script@.subrange(start as int, end as int)[i as int] != expected@[i as int]);
            return None;
        }
        i += 1;
    }
    assert(script@.subrange(start as int, end as int) =~= expected@);
    Some(end)
}

/// Reads the pushes of a body from `first` up to the closing `OP_ENDIF`.
fn body_from(script: &[u8], first: usize) -> (r: Option<Vec<u8>>)
    requires
        first <= script@.len(),
    ensures
        match r {
            Some(body) => read_body(script@.skip(first as int)) == Some(body@),
            None => read_body(script@.skip(first as int)) is None,
        },
{
    let len = script.len();
    let mut at = first;
    let mut body: Vec<u8> = Vec::new();
    assert(Seq::<u8>::empty() + script@.skip(first as int) =~= script@.skip(first as int));
    loop
        invariant
            first <= at <= len,
            len == script@.len(),
            read_body(script@.skip(first as int)) == match read_body(script@.skip(at as int)) {
                Some(rest) => Some(body@ + rest),
                None => None,
            },
        decreases len - at,
    {
        if at >= len {
            return None;
        }
        if script[at] == OP_ENDIF {
            if at + 1 == len {
                assert(body@ + Seq::<u8>::empty() =~= body@);
                return Some(body);
            }
            return None;
        }
        let (start, end) = match push_at(script, at) {
            Some(found) => found,
            None => {
                return None;
            },
        };
        let ghost before = body@;
        append_range(&mut body, script, start, end);
        proof {
            assert(script@.skip(at as int).skip(end - at) =~= script@.skip(end as int));
            assert forall|rest: Seq<u8>|
                before + (script@.subrange(start as int, end as int) + rest) == body@ + rest by {
                assert(before + (script@.subrange(start as int, end as int) + rest) =~= body@
                    + rest);
            }
        }
        at = end;
    }
}

impl Inscription {
    /// An inscription of `body` with the MIME type `content_type`.
    pub fn new(content_type: Vec<u8>, body: Vec<u8>) -> (r: Inscription)
        ensures
            r.content_type == content_type,
            r.body == body,
    {
        Inscription { content_type, body }
    }

    /// Appends the envelope of this inscription to what `builder` holds.
    pub fn append_reveal_script_to_builder(&self, builder: Builder) -> (after: Builder)
        requires
            self.content_type@.len() < 0x1_0000_0000,
        ensures
            builder_bytes(after) == builder_bytes(builder) + envelope(self@),
    {
        let ghost before = builder_bytes(builder);
        let mark: [u8; 3] = [0x6f, 0x72, 0x64];
        let tag: [u8; 1] = [1];
        let nothing: [u8; 0] = [];
        let builder = push_opcode(builder, OP_FALSE);
        let builder = push_opcode(builder, OP_IF);
        let builder = builder.push_slice(mark.as_slice());
        let builder = builder.push_slice(tag.as_slice());
        let builder = builder.push_slice(self.content_type.as_slice());
        let mut builder = builder.push_slice(nothing.as_slice());
        proof {
            assert(mark@ =~= protocol_id());
            assert(tag@ =~= content_type_tag());
            assert(nothing@ =~= Seq::<u8>::empty());
            assert(builder_bytes(builder) =~= before + envelope_head(self.content_type@));
            assert(self.body@.skip(0) =~= self.body@);
            assert(builder_bytes(builder) + body_pushes(self.body@.skip(0)) + seq![OP_ENDIF]
                =~= before + envelope(self@));
        }
        let body = self.body.as_slice();
        let mut done: usize = 0;
        while done < body.len()
            invariant
                done <= body.len(),
                body@ == self.body@,
                builder_bytes(builder) + body_pushes(body@.skip(done as int)) + seq![OP_ENDIF]
                    == before + envelope(self@),
            decreases body.len() - done,
        {
            let end = if body.len() - done > MAX_SCRIPT_ELEMENT_SIZE {
                done + MAX_SCRIPT_ELEMENT_SIZE
            } else {
                body.len()
            };
            let chunk = slice_subrange(body, done, end);
            let ghost previous = builder_bytes(builder);
            let ghost left = body@.skip(done as int);
            builder = builder.push_slice(chunk);
            proof {
                assert(chunk@ =~= left.take(end - done));
                assert(left.skip(end - done) =~= body@.skip(end as int));
                assert(builder_bytes(builder) + body_pushes(body@.skip(end as int)) + seq![OP_ENDIF]
                    =~= previous + body_pushes(left) + seq![OP_ENDIF]);
            }
            done = end;
        }
        proof {
            assert(body@.skip(done as int) =~= Seq::<u8>::empty());
            assert(builder_bytes(builder).push(OP_ENDIF) =~= builder_bytes(builder) + body_pushes(
                body@.skip(done as int),
            ) + seq![OP_ENDIF]);
        }
        push_opcode(builder, OP_ENDIF)
    }

    /// The script that `builder` holds, with the envelope of this
    /// inscription appended.
    pub fn append_reveal_script(&self, builder: Builder) -> (script: Vec<u8>)
        requires
            self.content_type@.len() < 0x1_0000_0000,
        ensures
            script@ == builder_bytes(builder) + envelope(self@),
    {
        into_bytes(self.append_reveal_script_to_builder(builder))
    }

    /// Reads an inscription back from a reveal script: `None` unless the
    /// script checks a signature against a 32-byte key and goes on with
    /// one well-formed envelope, which ends the script.
    pub fn from_reveal_script(script: &[u8]) -> (r: Option<Inscription>)
        ensures
            match r {
                Some(inscription) => read_reveal_script(script@) == Some(inscription@),
                None => read_reveal_script(script@) is None,
            },
    {
        let len = script.len();
        if len < 36 {
            assert(script@.len() >= 34 ==> script@.skip(34).len() < 2);
            return None;
        }
        if script[0] != 32 || script[33] != OP_CHECKSIG {
            return None;
        }
        if script[34] != OP_FALSE || script[35] != OP_IF {
            return None;
        }
        assert(script@.skip(34).skip(2) =~= script@.skip(36));
        let mark: [u8; 3] = [0x6f, 0x72, 0x64];
        let tag: [u8; 1] = [1];
        assert(mark@ =~= protocol_id());
        assert(tag@ =~= content_type_tag());
        let after_mark = match expect_push(script, 36, mark.as_slice()) {
            Some(end) => end,
            None => {
                return None;
            },
        };
        assert(script@.skip(36).skip(after_mark - 36) =~= script@.skip(after_mark as int));
        let after_tag = match expect_push(script, after_mark, tag.as_slice()) {
            Some(end) => end,
            None => {
                return None;
            },
        };
        assert(script@.skip(after_mark as int).skip(after_tag - after_mark) =~= script@.skip(
            after_tag as int,
        ));
        let (start, end) = match push_at(script, after_tag) {
            Some(found) => found,
            None => {
                return None;
            },
        };
        assert(script@.skip(after_tag as int).skip(end - after_tag) =~= script@.skip(end as int));
        if end >= len || script[end] != OP_FALSE {
            return None;
        }
        assert(script@.skip(end as int).skip(1) =~= script@.skip(end + 1));
        match body_from(script, end + 1) {
            Some(body) => Some(Inscription { content_type: copy_range(script, start, end), body }),
            None => None,
        }
    }

    /// The reveal script of this inscription under the key `public_key`.
    pub fn reveal_script(&self, public_key: &[u8; 32]) -> (script: Vec<u8>)
        requires
            self.content_type@.len() < 0x1_0000_0000,
        ensures
            script@ == reveal_script_bytes(public_key@, self@),
            read_reveal_script(script@) == Some(self@),
    {
        let builder = Builder::new().push_slice(public_key.as_slice());
        let builder = push_opcode(builder, OP_CHECKSIG);
        proof {
            assert(builder_bytes(builder) =~= push_bytes(public_key@) + seq![OP_CHECKSIG]);
            lemma_reveal_script_round_trip(public_key@, self@);
        }
        self.append_reveal_script(builder)
    }
}

} // verus!
