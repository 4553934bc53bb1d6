//! DHCPv6 messages, read and written by dhcproto.

use dhcproto::v6::{DhcpOption, DhcpOptions, Message, MessageType, OptionCode, IAPD, ORO};
use dhcproto::{Decodable, Decoder, Encodable};
use vstd::prelude::*;
use vstd::slice::slice_subrange;

use crate::dhcpv6::option_mape::OPTION_S46_CONT_MAPE;
use crate::dhcpv6::tlv::{be16, lemma_option_reads_back, options, read_u16, spelled, Tlv};

verus! {

/// The options of a DHCPv6 message or of one of its options, in ascending order of their codes.
#[verifier::external_type_specification]
#[verifier::external_body]
pub struct ExDhcpOptions(dhcproto::v6::DhcpOptions);

/// What the daemon reads from an option.
pub enum OptionBody {
    ServerId(Seq<u8>),
    Preference(u8),
    IaPd { id: u32, t1: u32, t2: u32 },
    IaPrefix { valid_lifetime: u32, prefix_len: u8, prefix_ip: u128 },
    Status(u16),
    ServerUnicast(u128),
    Unknown(Seq<u8>),
    Other,
}

/// An option of a message: its code, what is read from it, the options inside it, and its
/// encoding, which is missing for an option that cannot be encoded.
pub struct OptionView {
    pub code: u16,
    pub body: OptionBody,
    pub nested: Seq<OptionView>,
    pub wire: Option<Seq<u8>>,
}

/// The options that a `DhcpOptions` holds, in the order in which it lists them.
pub uninterp spec fn option_seq(opts: DhcpOptions) -> Seq<OptionView>;

/// The options that `DhcpOptions::decode` reads from the bytes after the fixed part of a message.
pub uninterp spec fn decoded_options(bytes: Seq<u8>) -> Seq<OptionView>;

/// What the daemon reads from an option.
#[derive(Clone, Debug)]
pub enum WireOption {
    ServerId(Vec<u8>),
    Preference(u8),
    IaPd { id: u32, t1: u32, t2: u32 },
    IaPrefix { valid_lifetime: u32, prefix_len: u8, prefix_ip: u128 },
    Status(u16),
    ServerUnicast(u128),
    Unknown(Vec<u8>),
    Other,
}

impl View for WireOption {
    type V = OptionBody;

    open spec fn view(&self) -> OptionBody {
        match *self {
            WireOption::ServerId(d) => OptionBody::ServerId(d@),
            WireOption::Preference(v) => OptionBody::Preference(v),
            WireOption::IaPd { id, t1, t2 } => OptionBody::IaPd { id, t1, t2 },
            WireOption::IaPrefix { valid_lifetime, prefix_len, prefix_ip } => OptionBody::IaPrefix {
                valid_lifetime,
                prefix_len,
                prefix_ip,
            },
            WireOption::Status(s) => OptionBody::Status(s),
            WireOption::ServerUnicast(a) => OptionBody::ServerUnicast(a),
            WireOption::Unknown(d) => OptionBody::Unknown(d@),
            WireOption::Other => OptionBody::Other,
        }
    }
}

/// An option that the daemon sends.
pub enum NewOption {
    ClientId(Vec<u8>),
    ServerId(Vec<u8>),
    /// The codes of the options that are asked for.
    Oro(Vec<u16>),
    IaPd { id: u32, t1: u32, t2: u32, opts: DhcpOptions },
}

/// Two big-endian bytes.
pub open spec fn be16_bytes(v: int) -> Seq<u8> {
    seq![(v / 256 % 256) as u8, (v % 256) as u8]
}

/// Four big-endian bytes.
pub open spec fn be32_bytes(v: int) -> Seq<u8> {
    be16_bytes(v / 65536) + be16_bytes(v)
}

/// Two big-endian bytes for each number.
pub open spec fn be16_list(codes: Seq<u16>) -> Seq<u8>
    decreases codes.len(),
{
    if codes.len() == 0 {
        Seq::empty()
    } else {
        be16_list(codes.drop_last()) + be16_bytes(codes.last() as int)
    }
}

/// The encoding of an option: code, length and payload.
pub open spec fn option_bytes(code: u16, payload: Seq<u8>) -> Seq<u8> {
    be16_bytes(code as int) + be16_bytes(payload.len() as int) + payload
}

/// The encodings of options one after the other, unless one of them has none.
pub open spec fn wire_of(opts: Seq<OptionView>) -> Option<Seq<u8>>
    decreases opts.len(),
{
    if opts.len() == 0 {
        Some(Seq::empty())
    } else {
        match (wire_of(opts.drop_last()), opts.last().wire) {
            (Some(front), Some(back)) => Some(front + back),
            _ => None,
        }
    }
}

/// An identity association for prefix delegation that holds the given options.
pub open spec fn ia_pd_view(id: u32, t1: u32, t2: u32, nested: Seq<OptionView>) -> OptionView {
    OptionView {
        code: 25,
        body: OptionBody::IaPd { id, t1, t2 },
        nested,
        wire: match wire_of(nested) {
            Some(inner) => Some(
                option_bytes(
                    25,
                    be32_bytes(id as int) + be32_bytes(t1 as int) + be32_bytes(t2 as int) + inner,
                ),
            ),
            None => None,
        },
    }
}

/// What an option is as the daemon sends it.
pub open spec fn new_option_view(o: NewOption) -> OptionView {
    match o {
        NewOption::ClientId(duid) => OptionView {
            code: 1,
            body: OptionBody::Other,
            nested: Seq::empty(),
            wire: Some(option_bytes(1, duid@)),
        },
        NewOption::ServerId(duid) => OptionView {
            code: 2,
            body: OptionBody::ServerId(duid@),
            nested: Seq::empty(),
            wire: Some(option_bytes(2, duid@)),
        },
        NewOption::Oro(codes) => OptionView {
            code: 6,
            body: OptionBody::Other,
            nested: Seq::empty(),
            wire: Some(option_bytes(6, be16_list(codes@))),
        },
        NewOption::IaPd { id, t1, t2, opts } => ia_pd_view(id, t1, t2, option_seq(opts)),
    }
}

/// Whether the codes ascend.
pub open spec fn sorted(opts: Seq<OptionView>) -> bool {
    forall|i: int, j: int| 0 <= i < j < opts.len() ==> opts[i].code <= opts[j].code
}

/// `opts` with `o` before the first option whose code is not smaller.
pub open spec fn inserted(opts: Seq<OptionView>, o: OptionView) -> Seq<OptionView>
    decreases opts.len(),
{
    if opts.len() == 0 || opts[0].code >= o.code {
        seq![o] + opts
    } else {
        seq![opts[0]] + inserted(opts.drop_first(), o)
    }
}

/// What the encoder adds, for the fields of an option, to the length of the options inside it.
pub open spec fn added_length(code: u16) -> int {
    if code == 3 || code == 25 {
        12
    } else if code == 4 || code == 17 {
        4
    } else if code == 5 {
        24
    } else if code == 26 {
        25
    } else {
        0
    }
}

/// Whether an option's options can be encoded, and its length, of which the encoder keeps sixteen
/// bits before it adds the fields, still has sixteen bits after that.
pub open spec fn holds_encodable(code: u16, nested_encodable: bool, nested: Seq<OptionView>) -> bool {
    nested_encodable && (wire_of(nested) matches Some(inner) ==> inner.len() % 0x1_0000
        + added_length(code) <= 0xffff)
}

/// Whether for no option, at any depth, the fields make the length overflow.
pub open spec fn encodable(opts: Seq<OptionView>) -> bool
    decreases opts,
{
    if opts.len() == 0 {
        true
    } else {
        &&& holds_encodable(
            opts[opts.len() - 1].code,
            encodable(opts[opts.len() - 1].nested),
            opts[opts.len() - 1].nested,
        )
        &&& encodable(opts.subrange(0, opts.len() - 1))
    }
}

/// `DhcpOptions::new`: no options.
#[verifier::external_body]
fn new_options() -> (r: DhcpOptions)
    ensures
        option_seq(r) == Seq::<OptionView>::empty(),
{
    DhcpOptions::new()
}

/// `DhcpOptions::insert`: the option goes before the first whose code is not smaller, and the
/// others stay.
#[verifier::external_body]
fn insert_option(opts: &mut DhcpOptions, o: NewOption)
    requires
        sorted(option_seq(*old(opts))),
        o matches NewOption::Oro(codes) ==> codes@.len() < 0x8000,
    ensures
        option_seq(*final(opts)) == inserted(option_seq(*old(opts)), new_option_view(o)),
{
    opts.insert(match o {
        NewOption::ClientId(duid) => DhcpOption::ClientId(duid),
        NewOption::ServerId(duid) => DhcpOption::ServerId(duid),
        NewOption::Oro(codes) => DhcpOption::ORO(ORO { opts: codes.into_iter().map(OptionCode::from).collect() }),
        NewOption::IaPd { id, t1, t2, opts } => DhcpOption::IAPD(IAPD { id, t1, t2, opts }),
    })
}

/// `Message::encode`: the type, the transaction id and the encodings of the options; nothing if
/// an option cannot be encoded. Options that hold so much that their length overflows are left
/// out, because the encoder adds to it without a check.
#[verifier::external_body]
fn encode_message(msg_type: u8, xid: [u8; 3], opts: &DhcpOptions) -> (r: Option<Vec<u8>>)
    requires
        encodable(option_seq(*opts)),
    ensures
        match wire_of(option_seq(*opts)) {
            Some(w) => r matches Some(b) && b@ == seq![msg_type] + xid@ + w,
            None => r is None,
        },
{
    let mut msg = Message::new_with_id(MessageType::from(msg_type), xid);
    msg.set_opts(opts.clone());
    msg.to_vec().ok()
}

/// `Message::decode`: the type, the transaction id and the options of a message, unless the
/// four bytes of its fixed part are not all there. Messages in which the decoder would
/// subtract from a length that is too short are left out.
#[verifier::external_body]
fn decode_message(data: &[u8]) -> (r: Option<(u8, [u8; 3], DhcpOptions)>)
    requires
        data@.len() >= 4 ==> clean(data@.subrange(4, data@.len() as int)),
    ensures
        r is Some <==> data@.len() >= 4,
        r matches Some((t, x, o)) ==> {
            &&& t == data@[0]
            &&& x@ == data@.subrange(1, 4)
            &&& option_seq(o) == decoded_options(data@.subrange(4, data@.len() as int))
        },
{
    let msg = Message::decode(&mut Decoder::new(data)).ok()?;
    Some((msg.msg_type().into(), msg.xid(), msg.opts().clone()))
}

/// `DhcpOptions::iter`: how many options it lists.
#[verifier::external_body]
fn option_count(opts: &DhcpOptions) -> (r: usize)
    ensures
        r == option_seq(*opts).len(),
{
    opts.iter().count()
}

/// `DhcpOptions::iter`: the code of the option that it lists at a position, and what is read
/// from that option.
#[verifier::external_body]
fn option_at(opts: &DhcpOptions, i: usize) -> (r: (u16, WireOption))
    requires
        i < option_seq(*opts).len(),
    ensures
        r.0 == option_seq(*opts)[i as int].code,
        r.1@ == option_seq(*opts)[i as int].body,
{
    let opt = opts.iter().nth(i).unwrap();
    (OptionCode::from(opt).into(), match opt {
        DhcpOption::ServerId(d) => WireOption::ServerId(d.clone()),
        DhcpOption::Preference(v) => WireOption::Preference(*v),
        DhcpOption::IAPD(p) => WireOption::IaPd { id: p.id, t1: p.t1, t2: p.t2 },
        DhcpOption::IAPrefix(p) => WireOption::IaPrefix { valid_lifetime: p.valid_lifetime, prefix_len: p.prefix_len, prefix_ip: p.prefix_ip.into() },
        DhcpOption::StatusCode(s) => WireOption::Status(s.status.into()),
        DhcpOption::ServerUnicast(a) => WireOption::ServerUnicast(u128::from(*a)),
        DhcpOption::Unknown(u) => WireOption::Unknown(u.data().to_vec()),
        _ => WireOption::Other,
    })
}

/// `DhcpOptions::iter`: the options inside the option that it lists at a position.
#[verifier::external_body]
fn nested_at(opts: &DhcpOptions, i: usize) -> (r: DhcpOptions)
    requires
        i < option_seq(*opts).len(),
    ensures
        option_seq(r) == option_seq(*opts)[i as int].nested,
{
    match opts.iter().nth(i).unwrap() {
        DhcpOption::IANA(o) => o.opts.clone(),
        DhcpOption::IATA(o) => o.opts.clone(),
        DhcpOption::IAAddr(o) => o.opts.clone(),
        DhcpOption::RelayMsg(m) => m.opts().clone(),
        DhcpOption::VendorOpts(o) => o.opts.clone(),
        DhcpOption::IAPD(o) => o.opts.clone(),
        DhcpOption::IAPrefix(o) => o.opts.clone(),
        _ => DhcpOptions::new(),
    }
}

/// The number of bytes that the decoder takes for an option whatever its length field says.
pub open spec fn fixed_payload(code: u16) -> Option<int> {
    if code == 7 || code == 19 {
        Some(1)
    } else if code == 8 {
        Some(2)
    } else if code == 12 {
        Some(16)
    } else if code == 14 || code == 20 {
        Some(0)
    } else {
        None
    }
}

/// The length that the decoder takes for granted in an option: it reads that many bytes and
/// subtracts them from the length.
pub open spec fn presumed_len(code: u16) -> int {
    if code == 13 {
        2
    } else if code == 16 || code == 17 {
        4
    } else {
        0
    }
}

/// The length of what precedes the options inside an option.
pub open spec fn nesting_header(code: u16) -> Option<int> {
    if code == 3 || code == 25 {
        Some(12)
    } else if code == 4 || code == 17 {
        Some(4)
    } else if code == 5 {
        Some(24)
    } else if code == 26 {
        Some(25)
    } else if code == 9 {
        Some(34)
    } else {
        None
    }
}

/// Whether the decoder gives up on an option of this length.
pub open spec fn gives_up(code: u16, len: int) -> bool {
    ||| code == 23 && len % 16 != 0
    ||| code == 11 && len < 11
    ||| nesting_header(code) matches Some(h) && len < h
}

/// Whether the decoder, on its way through the options, meets no option that is shorter than
/// the length it takes for granted.
pub open spec fn clean(bytes: Seq<u8>) -> bool
    decreases bytes.len(),
{
    if bytes.len() < 4 {
        true
    } else {
        let code = be16(bytes[0], bytes[1]);
        let len = be16(bytes[2], bytes[3]) as int;
        let left = bytes.len() - 4;
        match fixed_payload(code) {
            Some(n) => left < n || clean(bytes.subrange(4 + n, bytes.len() as int)),
            None => if left < presumed_len(code) {
                true
            } else if len < presumed_len(code) {
                false
            } else if left < len || gives_up(code, len) {
                true
            } else {
                &&& nesting_header(code) matches Some(h) ==> clean(bytes.subrange(4 + h, 4 + len))
                &&& clean(bytes.subrange(4 + len, bytes.len() as int))
            },
        }
    }
}

/// The length of what precedes the options inside an option.
fn nesting_header_of(code: u16) -> (r: Option<usize>)
    ensures
        match nesting_header(code) {
            Some(h) => r matches Some(v) && v == h,
            None => r is None,
        },
{
    match code {
        3 | 25 => Some(12),
        4 | 17 => Some(4),
        5 => Some(24),
        26 => Some(25),
        9 => Some(34),
        _ => None,
    }
}

/// The code of an authentication, which the decoder gives up on where it is shorter than eleven
/// bytes.
pub const OPTION_AUTH: u8 = 11;

/// `bytes` with each option that is shorter than the length the decoder takes for granted turned
/// into one that the decoder gives up on. The options then end at its place, in the message or
/// in the option that holds it.
pub open spec fn mended(bytes: Seq<u8>) -> Seq<u8>
    decreases bytes.len(),
{
    if bytes.len() < 4 {
        bytes
    } else {
        let code = be16(bytes[0], bytes[1]);
        let len = be16(bytes[2], bytes[3]) as int;
        let left = bytes.len() - 4;
        match fixed_payload(code) {
            Some(n) => if left < n {
                bytes
            } else {
                bytes.subrange(0, 4 + n) + mended(bytes.subrange(4 + n, bytes.len() as int))
            },
            None => if left < presumed_len(code) {
                bytes
            } else if len < presumed_len(code) {
                seq![0u8, OPTION_AUTH] + bytes.subrange(2, bytes.len() as int)
            } else if left < len || gives_up(code, len) {
                bytes
            } else {
                (match nesting_header(code) {
                    Some(h) => bytes.subrange(0, 4 + h) + mended(bytes.subrange(4 + h, 4 + len)),
                    None => bytes.subrange(0, 4 + len),
                }) + mended(bytes.subrange(4 + len, bytes.len() as int))
            },
        }
    }
}

/// What is mended is as long as before, and the decoder can be let loose on it.
proof fn lemma_mended_is_clean(bytes: Seq<u8>)
    ensures
        mended(bytes).len() == bytes.len(),
        clean(mended(bytes)),
    decreases bytes.len(),
{
    if bytes.len() >= 4 {
        let code = be16(bytes[0], bytes[1]);
        let len = be16(bytes[2], bytes[3]) as int;
        let left = bytes.len() - 4;
        let m = mended(bytes);
        match fixed_payload(code) {
            Some(n) => if left >= n {
                let rest = bytes.subrange(4 + n, bytes.len() as int);
                lemma_mended_is_clean(rest);
                assert(m.subrange(4 + n, m.len() as int) =~= mended(rest));
            },
            None => if left >= presumed_len(code) && len >= presumed_len(code) && left >= len
                && !gives_up(code, len) {
                let rest = bytes.subrange(4 + len, bytes.len() as int);
                lemma_mended_is_clean(rest);
                if let Some(h) = nesting_header(code) {
                    let inner = bytes.subrange(4 + h, 4 + len);
                    lemma_mended_is_clean(inner);
                    assert(m.subrange(4 + h, 4 + len) =~= mended(inner));
                }
                assert(m.subrange(4 + len, m.len() as int) =~= mended(rest));
            },
        }
    }
}

/// What the decoder can be let loose on is left as it is.
pub proof fn lemma_clean_is_left_alone(bytes: Seq<u8>)
    requires
        clean(bytes),
    ensures
        mended(bytes) == bytes,
    decreases bytes.len(),
{
    if bytes.len() >= 4 {
        let code = be16(bytes[0], bytes[1]);
        let len = be16(bytes[2], bytes[3]) as int;
        let left = bytes.len() - 4;
        match fixed_payload(code) {
            Some(n) => if left >= n {
                lemma_clean_is_left_alone(bytes.subrange(4 + n, bytes.len() as int));
                assert(mended(bytes) =~= bytes);
            },
            None => if left >= presumed_len(code) && len >= presumed_len(code) && left >= len
                && !gives_up(code, len) {
                lemma_clean_is_left_alone(bytes.subrange(4 + len, bytes.len() as int));
                if let Some(h) = nesting_header(code) {
                    lemma_clean_is_left_alone(bytes.subrange(4 + h, 4 + len));
                }
                assert(mended(bytes) =~= bytes);
            },
        }
    }
}

/// Appends bytes.
fn append_bytes(out: &mut Vec<u8>, bytes: &[u8])
    ensures
        final(out)@ == old(out)@ + bytes@,
{
    let mut more = vstd::slice::slice_to_vec(bytes);
    out.append(&mut more);
}

/// Makes options fit for the decoder.
fn mend(bytes: &[u8]) -> (r: Vec<u8>)
    ensures
        r@ == mended(bytes@),
    decreases bytes@.len(),
{
    let mut out: Vec<u8> = Vec::new();
    let mut rest: &[u8] = bytes;
    assert(out@ + mended(rest@) =~= mended(bytes@));
    while rest.len() >= 4
        invariant
            out@ + mended(rest@) == mended(bytes@),
            rest@.len() <= bytes@.len(),
        decreases rest@.len(),
    {
        let code: u16 = read_u16(rest[0], rest[1]);
        let len: usize = read_u16(rest[2], rest[3]) as usize;
        let left: usize = rest.len() - 4;
        let ghost before = out@;
        let ghost now = rest@;
        let fixed: Option<usize> = match code {
            7 | 19 => Some(1),
            8 => Some(2),
            12 => Some(16),
            14 | 20 => Some(0),
            _ => None,
        };
        if let Some(n) = fixed {
            if left < n {
                append_bytes(&mut out, rest);
                return out;
            }
            append_bytes(&mut out, slice_subrange(rest, 0, 4 + n));
            rest = slice_subrange(rest, 4 + n, rest.len());
            assert(out@ + mended(rest@) =~= before + mended(now));
        } else {
            let presumed: usize = match code {
                13 => 2,
                16 | 17 => 4,
                _ => 0,
            };
            if left < presumed {
                append_bytes(&mut out, rest);
                return out;
            }
            if len < presumed {
                out.push(0);
                out.push(OPTION_AUTH);
                append_bytes(&mut out, slice_subrange(rest, 2, rest.len()));
                assert(out@ =~= before + mended(now));
                return out;
            }
            let header = nesting_header_of(code);
            let short: bool = match header {
                Some(h) => len < h,
                None => false,
            };
            if left < len || (code == 23 && len % 16 != 0) || (code == 11 && len < 11) || short {
                append_bytes(&mut out, rest);
                return out;
            }
            match header {
                Some(h) => {
                    append_bytes(&mut out, slice_subrange(rest, 0, 4 + h));
                    let mut inner = mend(slice_subrange(rest, 4 + h, 4 + len));
                    out.append(&mut inner);
                },
                None => {
                    append_bytes(&mut out, slice_subrange(rest, 0, 4 + len));
                },
            }
            rest = slice_subrange(rest, 4 + len, rest.len());
            assert(out@ + mended(rest@) =~= before + mended(now));
        }
    }
    append_bytes(&mut out, rest);
    out
}

/// A message as its receiver sees it.
pub struct MessageView {
    pub msg_type: u8,
    pub xid: Seq<u8>,
    pub options: Seq<OptionView>,
}

/// The message that a datagram carries. One that is shorter than the fixed part of a message
/// carries none. An option that is too short for its kind ends the options.
pub open spec fn message_of(data: Seq<u8>) -> Option<MessageView> {
    if data.len() >= 4 {
        Some(
            MessageView {
                msg_type: data[0],
                xid: data.subrange(1, 4),
                options: decoded_options(mended(data.subrange(4, data.len() as int))),
            },
        )
    } else {
        None
    }
}

/// A received message.
pub struct WireMessage {
    msg_type: u8,
    xid: [u8; 3],
    opts: DhcpOptions,
}

impl View for WireMessage {
    type V = MessageView;

    closed spec fn view(&self) -> MessageView {
        MessageView { msg_type: self.msg_type, xid: self.xid@, options: option_seq(self.opts) }
    }
}

/// An identity association for prefix delegation.
pub struct IaPd {
    id: u32,
    t1: u32,
    t2: u32,
    opts: DhcpOptions,
}

/// An identity association as its receiver sees it.
pub struct IaPdView {
    pub id: u32,
    pub t1: u32,
    pub t2: u32,
    pub options: Seq<OptionView>,
}

impl View for IaPd {
    type V = IaPdView;

    closed spec fn view(&self) -> IaPdView {
        IaPdView { id: self.id, t1: self.t1, t2: self.t2, options: option_seq(self.opts) }
    }
}

/// A kind of option to look for.
#[derive(Clone, Copy, Debug, PartialEq, Eq, Structural)]
pub enum Wanted {
    ServerId,
    Preference,
    /// An identity association, with the given id where one is given.
    IaPd(Option<u32>),
    IaPrefix,
    Status,
    ServerUnicast,
    /// An option that the decoder leaves undecoded, with the given code.
    Unknown(u16),
    /// A status other than success.
    Failure,
}

/// Whether an option with this code and body is of the wanted kind.
pub open spec fn fits(code: u16, body: OptionBody, w: Wanted) -> bool {
    match w {
        Wanted::ServerId => body is ServerId,
        Wanted::Preference => body is Preference,
        Wanted::IaPd(None) => body is IaPd,
        Wanted::IaPd(Some(id)) => body is IaPd && body->id == id,
        Wanted::IaPrefix => body is IaPrefix,
        Wanted::Status => body is Status,
        Wanted::ServerUnicast => body is ServerUnicast,
        Wanted::Unknown(wanted_code) => body is Unknown && code == wanted_code,
        Wanted::Failure => body is Status && body->Status_0 != 0,
    }
}

/// Whether an option is of the wanted kind.
pub open spec fn is_wanted(o: OptionView, w: Wanted) -> bool {
    fits(o.code, o.body, w)
}

/// The first option of the wanted kind.
pub open spec fn first(opts: Seq<OptionView>, w: Wanted) -> Option<OptionView>
    decreases opts.len(),
{
    if opts.len() == 0 {
        None
    } else if is_wanted(opts[0], w) {
        Some(opts[0])
    } else {
        first(opts.drop_first(), w)
    }
}

/// The place of the first option of the wanted kind in a list of codes and bodies.
pub fn find_option(list: &Vec<(u16, WireOption)>, w: Wanted) -> (r: Option<usize>)
    ensures
        match r {
            Some(i) => {
                &&& i < list@.len()
                &&& fits(list@[i as int].0, list@[i as int].1@, w)
                &&& forall|j: int|
                    0 <= j < i ==> !fits((#[trigger] list@[j]).0, list@[j].1@, w)
            },
            None => forall|j: int|
                0 <= j < list@.len() ==> !fits((#[trigger] list@[j]).0, list@[j].1@, w),
        },
{
    let mut i: usize = 0;
    while i < list.len()
        invariant
            i <= list@.len(),
            forall|j: int| 0 <= j < i ==> !fits((#[trigger] list@[j]).0, list@[j].1@, w),
        decreases list@.len() - i,
    {
        let code: u16 = list[i].0;
        let hit: bool = match (w, &list[i].1) {
            (Wanted::ServerId, WireOption::ServerId(_)) => true,
            (Wanted::Preference, WireOption::Preference(_)) => true,
            (Wanted::IaPd(None), WireOption::IaPd { .. }) => true,
            (Wanted::IaPd(Some(wanted_id)), WireOption::IaPd { id, .. }) => *id == wanted_id,
            (Wanted::IaPrefix, WireOption::IaPrefix { .. }) => true,
            (Wanted::Status, WireOption::Status(_)) => true,
            (Wanted::ServerUnicast, WireOption::ServerUnicast(_)) => true,
            (Wanted::Unknown(wanted_code), WireOption::Unknown(_)) => code == wanted_code,
            (Wanted::Failure, WireOption::Status(s)) => *s != 0,
            _ => false,
        };
        if hit {
            return Some(i);
        }
        i = i + 1;
    }
    None
}

/// The codes and bodies of options.
fn listed(opts: &DhcpOptions) -> (r: Vec<(u16, WireOption)>)
    ensures
        r@.len() == option_seq(*opts).len(),
        forall|i: int|
            0 <= i < r@.len() ==> (#[trigger] r@[i]).0 == option_seq(*opts)[i].code && r@[i].1@
                == option_seq(*opts)[i].body,
{
    let n: usize = option_count(opts);
    let mut list: Vec<(u16, WireOption)> = Vec::new();
    let mut i: usize = 0;
    while i < n
        invariant
            i <= n,
            n == option_seq(*opts).len(),
            list@.len() == i,
            forall|j: int|
                0 <= j < i ==> (#[trigger] list@[j]).0 == option_seq(*opts)[j].code && list@[j].1@
                    == option_seq(*opts)[j].body,
        decreases n - i,
    {
        list.push(option_at(opts, i));
        i = i + 1;
    }
    list
}

/// An option of the wanted kind with none before it is the first.
proof fn lemma_first_at(opts: Seq<OptionView>, w: Wanted, i: int)
    requires
        0 <= i <= opts.len(),
        forall|j: int| 0 <= j < i ==> !is_wanted(#[trigger] opts[j], w),
        i < opts.len() ==> is_wanted(opts[i], w),
    ensures
        first(opts, w) == (if i < opts.len() {
            Some(opts[i])
        } else {
            None
        }),
    decreases opts.len(),
{
    if opts.len() > 0 && i > 0 {
        let rest = opts.drop_first();
        assert forall|j: int| 0 <= j < i - 1 implies !is_wanted(#[trigger] rest[j], w) by {
            assert(rest[j] == opts[j + 1]);
        }
        lemma_first_at(rest, w, i - 1);
    }
}

/// Finds the first option of the wanted kind.
fn find(opts: &DhcpOptions, w: Wanted) -> (r: Option<(usize, WireOption)>)
    ensures
        match first(option_seq(*opts), w) {
            Some(o) => r matches Some((i, b)) && i < option_seq(*opts).len() && option_seq(
                *opts,
            )[i as int] == o && b@ == o.body && is_wanted(o, w),
            None => r is None,
        },
{
    let list = listed(opts);
    let ghost all = option_seq(*opts);
    match find_option(&list, w) {
        Some(i) => {
            proof {
                assert forall|j: int| 0 <= j < i implies !is_wanted(#[trigger] all[j], w) by {
                    assert(!fits(list@[j].0, list@[j].1@, w));
                }
                lemma_first_at(all, w, i as int);
            }
            let (_, option) = option_at(opts, i);
            Some((i, option))
        },
        None => {
            proof {
                assert forall|j: int| 0 <= j < all.len() implies !is_wanted(
                    #[trigger] all[j],
                    w,
                ) by {
                    assert(!fits(list@[j].0, list@[j].1@, w));
                }
                lemma_first_at(all, w, all.len() as int);
            }
            None
        },
    }
}

/// The status that a message or an association carries.
pub open spec fn first_status(opts: Seq<OptionView>) -> Option<u16> {
    match first(opts, Wanted::Status) {
        Some(o) => Some(o.body->Status_0),
        None => None,
    }
}

/// The identifier of the server.
pub open spec fn first_server_id(opts: Seq<OptionView>) -> Option<Seq<u8>> {
    match first(opts, Wanted::ServerId) {
        Some(o) => Some(o.body->ServerId_0),
        None => None,
    }
}

/// How much the server wants to be chosen: 0 where it does not say.
pub open spec fn first_preference(opts: Seq<OptionView>) -> u8 {
    match first(opts, Wanted::Preference) {
        Some(o) => o.body->Preference_0,
        None => 0,
    }
}

/// The address at which the server wants to be spoken to.
pub open spec fn first_unicast(opts: Seq<OptionView>) -> Option<u128> {
    match first(opts, Wanted::ServerUnicast) {
        Some(o) => Some(o.body->ServerUnicast_0),
        None => None,
    }
}

/// The payload of the first undecoded option with the given code.
pub open spec fn first_unknown(opts: Seq<OptionView>, code: u16) -> Option<Seq<u8>> {
    match first(opts, Wanted::Unknown(code)) {
        Some(o) => Some(o.body->Unknown_0),
        None => None,
    }
}

/// The first identity association, or the first with the given id.
pub open spec fn first_ia_pd(opts: Seq<OptionView>, iaid: Option<u32>) -> Option<IaPdView> {
    match first(opts, Wanted::IaPd(iaid)) {
        Some(o) => Some(
            IaPdView { id: o.body->id, t1: o.body->t1, t2: o.body->t2, options: o.nested },
        ),
        None => None,
    }
}

/// What optional bytes hold.
pub open spec fn bytes_of(v: Option<Vec<u8>>) -> Option<Seq<u8>> {
    match v {
        Some(b) => Some(b@),
        None => None,
    }
}

/// What an optional identity association holds.
pub open spec fn association_of(v: Option<IaPd>) -> Option<IaPdView> {
    match v {
        Some(a) => Some(a@),
        None => None,
    }
}

/// Reads a datagram.
pub fn read_message(data: &[u8]) -> (r: Option<WireMessage>)
    ensures
        match message_of(data@) {
            Some(m) => r matches Some(w) && w@ == m,
            None => r is None,
        },
{
    if data.len() < 4 {
        return None;
    }
    let ghost rest = data@.subrange(4, data@.len() as int);
    let mut mended_data = vstd::slice::slice_to_vec(slice_subrange(data, 0, 4));
    let mut options = mend(slice_subrange(data, 4, data.len()));
    mended_data.append(&mut options);
    proof {
        lemma_mended_is_clean(rest);
        assert(mended_data@.subrange(4, mended_data@.len() as int) =~= mended(rest));
        assert(mended_data@.subrange(1, 4) =~= data@.subrange(1, 4));
    }
    match decode_message(mended_data.as_slice()) {
        Some((msg_type, xid, opts)) => Some(WireMessage { msg_type, xid, opts }),
        None => None,
    }
}

impl WireMessage {
    /// The number of the message type.
    pub fn msg_type(&self) -> (r: u8)
        ensures
            r == self@.msg_type,
    {
        self.msg_type
    }

    /// The transaction id.
    pub fn xid(&self) -> (r: [u8; 3])
        ensures
            r@ == self@.xid,
    {
        self.xid
    }

    /// The first status that the message carries.
    pub fn status(&self) -> (r: Option<u16>)
        ensures
            r == first_status(self@.options),
    {
        match find(&self.opts, Wanted::Status) {
            Some((_, WireOption::Status(s))) => Some(s),
            _ => None,
        }
    }

    /// The identifier of the server.
    pub fn server_id(&self) -> (r: Option<Vec<u8>>)
        ensures
            bytes_of(r) == first_server_id(self@.options),
    {
        match find(&self.opts, Wanted::ServerId) {
            Some((_, WireOption::ServerId(d))) => Some(d),
            _ => None,
        }
    }

    /// How much the server wants to be chosen: 0 where it does not say.
    pub fn preference(&self) -> (r: u8)
        ensures
            r == first_preference(self@.options),
    {
        match find(&self.opts, Wanted::Preference) {
            Some((_, WireOption::Preference(v))) => v,
            _ => 0,
        }
    }

    /// The address at which the server wants to be spoken to.
    pub fn server_unicast(&self) -> (r: Option<u128>)
        ensures
            r == first_unicast(self@.options),
    {
        match find(&self.opts, Wanted::ServerUnicast) {
            Some((_, WireOption::ServerUnicast(a))) => Some(a),
            _ => None,
        }
    }

    /// The payload of the first undecoded option with the given code.
    pub fn unknown(&self, code: u16) -> (r: Option<Vec<u8>>)
        ensures
            bytes_of(r) == first_unknown(self@.options, code),
    {
        match find(&self.opts, Wanted::Unknown(code)) {
            Some((_, WireOption::Unknown(d))) => Some(d),
            _ => None,
        }
    }

    /// The first identity association, or the first with the given id.
    pub fn ia_pd(&self, iaid: Option<u32>) -> (r: Option<IaPd>)
        ensures
            association_of(r) == first_ia_pd(self@.options, iaid),
    {
        match find(&self.opts, Wanted::IaPd(iaid)) {
            Some((i, WireOption::IaPd { id, t1, t2 })) => Some(
                IaPd { id, t1, t2, opts: nested_at(&self.opts, i) },
            ),
            _ => None,
        }
    }
}

/// A delegated prefix and how long it is valid.
#[derive(Clone, Copy, Debug, PartialEq, Eq, Structural)]
pub struct DelegatedPrefix {
    pub valid_lifetime: u32,
    pub prefix_len: u8,
    pub prefix_ip: u128,
}

/// The first prefix of an association.
pub open spec fn first_prefix(opts: Seq<OptionView>) -> Option<DelegatedPrefix> {
    match first(opts, Wanted::IaPrefix) {
        Some(o) => Some(
            DelegatedPrefix {
                valid_lifetime: o.body->valid_lifetime,
                prefix_len: o.body->prefix_len,
                prefix_ip: o.body->prefix_ip,
            },
        ),
        None => None,
    }
}

impl IaPd {
    /// An association without prefixes.
    pub fn bare(id: u32, t1: u32, t2: u32) -> (r: IaPd)
        ensures
            r@ == (IaPdView { id, t1, t2, options: Seq::empty() }),
    {
        IaPd { id, t1, t2, opts: new_options() }
    }

    /// The first prefix of the association.
    fn prefix(&self) -> (r: Option<DelegatedPrefix>)
        ensures
            r == first_prefix(self@.options),
    {
        match find(&self.opts, Wanted::IaPrefix) {
            Some((_, WireOption::IaPrefix { valid_lifetime, prefix_len, prefix_ip })) => Some(
                DelegatedPrefix { valid_lifetime, prefix_len, prefix_ip },
            ),
            _ => None,
        }
    }

    /// Whether a status of the association says that something failed.
    fn has_failure(&self) -> (r: bool)
        ensures
            r == (first(self@.options, Wanted::Failure) is Some),
    {
        find(&self.opts, Wanted::Failure).is_some()
    }
}

/// What an association brings.
#[derive(Clone, Copy, Debug, PartialEq, Eq, Structural)]
pub struct Delegation {
    /// Seconds until the server is asked to renew, as the server gave them.
    pub t1: u32,
    /// Seconds until any server is asked, as the server gave them.
    pub t2: u32,
    /// The first prefix.
    pub prefix: Option<DelegatedPrefix>,
    /// Whether a status says that something failed.
    pub failed: bool,
}

/// What the daemon makes use of in a reply.
#[derive(Clone, Debug)]
pub struct Contents {
    /// The first status.
    pub status: Option<u16>,
    /// The address at which the server wants to be spoken to.
    pub server_unicast: Option<u128>,
    /// The first association, or the first with the id that was asked for.
    pub delegation: Option<Delegation>,
    /// The payload of the first MAP-E container.
    pub container: Option<Vec<u8>>,
}

/// What the daemon makes use of in a reply, with its bytes as a sequence.
pub struct ContentsView {
    pub status: Option<u16>,
    pub server_unicast: Option<u128>,
    pub delegation: Option<Delegation>,
    pub container: Option<Seq<u8>>,
}

impl View for Contents {
    type V = ContentsView;

    open spec fn view(&self) -> ContentsView {
        ContentsView {
            status: self.status,
            server_unicast: self.server_unicast,
            delegation: self.delegation,
            container: bytes_of(self.container),
        }
    }
}

/// What an association brings.
pub open spec fn delegation_of(a: IaPdView) -> Delegation {
    Delegation {
        t1: a.t1,
        t2: a.t2,
        prefix: first_prefix(a.options),
        failed: first(a.options, Wanted::Failure) is Some,
    }
}

/// What the daemon makes use of in a message.
pub open spec fn contents_of(m: MessageView, iaid: Option<u32>) -> ContentsView {
    ContentsView {
        status: first_status(m.options),
        server_unicast: first_unicast(m.options),
        delegation: match first_ia_pd(m.options, iaid) {
            Some(a) => Some(delegation_of(a)),
            None => None,
        },
        container: first_unknown(m.options, OPTION_S46_CONT_MAPE),
    }
}

impl WireMessage {
    /// What the daemon makes use of in the message.
    pub fn contents(&self, iaid: Option<u32>) -> (r: Contents)
        ensures
            r@ == contents_of(self@, iaid),
    {
        let delegation = match self.ia_pd(iaid) {
            Some(a) => Some(
                Delegation { t1: a.t1, t2: a.t2, prefix: a.prefix(), failed: a.has_failure() },
            ),
            None => None,
        };
        Contents {
            status: self.status(),
            server_unicast: self.server_unicast(),
            delegation,
            container: self.unknown(OPTION_S46_CONT_MAPE),
        }
    }
}

/// What the encoder adds, for the fields of an option, to the length of the options inside it.
fn added_length_of(code: u16) -> (r: usize)
    ensures
        r == added_length(code),
{
    if code == 3 || code == 25 {
        12
    } else if code == 4 || code == 17 {
        4
    } else if code == 5 {
        24
    } else if code == 26 {
        25
    } else {
        0
    }
}

/// Whether for no option, at any depth, the fields make the length overflow.
fn is_encodable(opts: &DhcpOptions) -> (r: bool)
    ensures
        r == encodable(option_seq(*opts)),
    decreases option_seq(*opts),
{
    let n: usize = option_count(opts);
    let ghost all = option_seq(*opts);
    let mut i: usize = 0;
    proof {
        assert(all.take(0).len() == 0);
    }
    while i < n
        invariant
            i <= n,
            n == all.len(),
            all == option_seq(*opts),
            encodable(all.take(i as int)),
        decreases n - i,
    {
        let nested = nested_at(opts, i);
        proof {
            assert(decreases_to!(all => all[i as int]));
            assert(decreases_to!(all[i as int] => all[i as int].nested));
            let next = all.take(i + 1);
            assert(next.subrange(0, next.len() - 1) =~= all.take(i as int));
            assert(next[next.len() - 1] == all[i as int]);
            if !encodable(next) {
                lemma_encodable_prefix(all, i + 1);
            }
        }
        if !is_encodable(&nested) {
            return false;
        }
        match encode_message(0, [0, 0, 0], &nested) {
            Some(bytes) => {
                let (code, _) = option_at(opts, i);
                let len: usize = bytes.len() - 4;
                if len % 0x1_0000 + added_length_of(code) > 0xffff {
                    return false;
                }
            },
            None => {},
        }
        i = i + 1;
    }
    proof {
        assert(all.take(n as int) =~= all);
    }
    true
}

proof fn lemma_encodable_prefix(opts: Seq<OptionView>, n: int)
    requires
        0 <= n <= opts.len(),
        !encodable(opts.take(n)),
    ensures
        !encodable(opts),
    decreases opts.len() - n,
{
    if n < opts.len() {
        let next = opts.take(n + 1);
        assert(next.subrange(0, next.len() - 1) =~= opts.take(n));
        lemma_encodable_prefix(opts, n + 1);
    } else {
        assert(opts.take(n) =~= opts);
    }
}

/// The encoding of a message, if it has one.
pub open spec fn encoded_message(m: MessageView) -> Option<Seq<u8>> {
    if encodable(m.options) {
        match wire_of(m.options) {
            Some(w) => Some(seq![m.msg_type] + m.xid + w),
            None => None,
        }
    } else {
        None
    }
}

impl WireMessage {
    /// Encodes the message.
    pub fn encode(&self) -> (r: Option<Vec<u8>>)
        ensures
            bytes_of(r) == encoded_message(self@),
    {
        if is_encodable(&self.opts) {
            encode_message(self.msg_type, self.xid, &self.opts)
        } else {
            None
        }
    }
}

/// The options that the client asks for: prefix delegation and the MAP-E container.
pub open spec fn requested_codes() -> Seq<u16> {
    seq![25u16, OPTION_S46_CONT_MAPE]
}

/// The encoding of an association, if it has one.
pub open spec fn association_wire(a: IaPdView) -> Option<Seq<u8>> {
    if encodable(seq![ia_pd_view(a.id, a.t1, a.t2, a.options)]) {
        ia_pd_view(a.id, a.t1, a.t2, a.options).wire
    } else {
        None
    }
}

/// The options of a client's message: who the client is, whom it speaks to, what it asks for,
/// and the association.
pub open spec fn client_options(
    duid: Seq<u8>,
    server: Option<Seq<u8>>,
    asks: bool,
    association: Seq<u8>,
) -> Seq<u8> {
    option_bytes(1, duid) + (match server {
        Some(id) => option_bytes(2, id),
        None => Seq::empty(),
    }) + (if asks {
        option_bytes(6, be16_list(requested_codes()))
    } else {
        Seq::empty()
    }) + association
}

/// A message of a client: type, transaction id and options. It cannot be encoded if its
/// association cannot.
pub open spec fn client_message(
    msg_type: u8,
    xid: Seq<u8>,
    duid: Seq<u8>,
    server: Option<Seq<u8>>,
    asks: bool,
    a: IaPdView,
) -> Option<Seq<u8>> {
    match association_wire(a) {
        Some(w) => Some(seq![msg_type] + xid + client_options(duid, server, asks, w)),
        None => None,
    }
}

proof fn lemma_inserted_between(front: Seq<OptionView>, back: Seq<OptionView>, o: OptionView)
    requires
        forall|i: int| 0 <= i < front.len() ==> (#[trigger] front[i]).code < o.code,
        back.len() > 0 ==> back[0].code >= o.code,
    ensures
        inserted(front + back, o) == front + seq![o] + back,
    decreases front.len(),
{
    let all = front + back;
    if front.len() == 0 {
        assert(all =~= back);
        assert(front + seq![o] + back =~= seq![o] + back);
    } else {
        let rest = front.drop_first();
        assert(all.drop_first() =~= rest + back);
        assert forall|i: int| 0 <= i < rest.len() implies (#[trigger] rest[i]).code < o.code by {
            assert(rest[i] == front[i + 1]);
        }
        lemma_inserted_between(rest, back, o);
        assert(front[0].code < o.code);
        assert(seq![front[0]] + (rest + seq![o] + back) =~= front + seq![o] + back);
    }
}

/// Copies bytes.
fn copied(bytes: &Vec<u8>) -> (r: Vec<u8>)
    ensures
        r@ == bytes@,
{
    vstd::slice::slice_to_vec(bytes.as_slice())
}

/// Builds a message of the client.
#[verifier::rlimit(50)]
pub fn build_client_message(
    msg_type: u8,
    xid: [u8; 3],
    duid: &Vec<u8>,
    server: Option<&Vec<u8>>,
    asks: bool,
    association: IaPd,
) -> (r: Option<Vec<u8>>)
    ensures
        bytes_of(r) == client_message(
            msg_type,
            xid@,
            duid@,
            match server {
                Some(id) => Some(id@),
                None => None,
            },
            asks,
            association@,
        ),
{
    let ghost a = association@;
    let ghost ia = ia_pd_view(a.id, a.t1, a.t2, a.options);
    let mut opts = new_options();
    let IaPd { id, t1, t2, opts: inner } = association;
    let new_ia = NewOption::IaPd { id, t1, t2, opts: inner };
    let ghost empty = Seq::<OptionView>::empty();
    insert_option(&mut opts, new_ia);
    proof {
        lemma_inserted_between(empty, empty, ia);
        assert(option_seq(opts) =~= seq![ia]);
    }
    if !is_encodable(&opts) {
        return None;
    }
    let ghost mut last = seq![ia];
    if asks {
        let codes: Vec<u16> = vec![25, OPTION_S46_CONT_MAPE];
        assert(codes@ =~= requested_codes());
        let o = NewOption::Oro(codes);
        let ghost v = new_option_view(o);
        insert_option(&mut opts, o);
        proof {
            lemma_inserted_between(empty, last, v);
            assert(empty + last =~= last);
            assert(empty + seq![v] + last =~= seq![v, ia]);
            last = seq![v, ia];
        }
    }
    if let Some(server_id) = server {
        let o = NewOption::ServerId(copied(server_id));
        let ghost v = new_option_view(o);
        insert_option(&mut opts, o);
        proof {
            lemma_inserted_between(empty, last, v);
            assert(empty + last =~= last);
            assert(empty + seq![v] + last =~= seq![v] + last);
            last = seq![v] + last;
        }
    }
    let o = NewOption::ClientId(copied(duid));
    let ghost v = new_option_view(o);
    insert_option(&mut opts, o);
    proof {
        lemma_inserted_between(empty, last, v);
        assert(empty + last =~= last);
        assert(empty + seq![v] + last =~= seq![v] + last);
        last = seq![v] + last;
        lemma_encodable_all(last, ia);
        lemma_wire_of_client(last, ia);
    }
    encode_message(msg_type, xid, &opts)
}

/// Options without options inside them do not get in the way of an encoding.
proof fn lemma_encodable_all(opts: Seq<OptionView>, ia: OptionView)
    requires
        opts.len() > 0,
        opts.last() == ia,
        encodable(seq![ia]),
        forall|i: int| 0 <= i < opts.len() - 1 ==> (#[trigger] opts[i]).nested.len() == 0,
    ensures
        encodable(opts),
{
    assert(seq![ia][0] == ia);
    lemma_plain_options_encodable(opts.subrange(0, opts.len() - 1));
}

proof fn lemma_plain_options_encodable(opts: Seq<OptionView>)
    requires
        forall|i: int| 0 <= i < opts.len() ==> (#[trigger] opts[i]).nested.len() == 0,
    ensures
        encodable(opts),
    decreases opts.len(),
{
    if opts.len() > 0 {
        let n = opts.len() - 1;
        assert(opts[n].nested.len() == 0);
        assert(encodable(opts[n].nested));
        assert(wire_of(opts[n].nested) == Some(Seq::<u8>::empty()));
        lemma_plain_options_encodable(opts.subrange(0, n));
    }
}

/// The encodings of at most three options and the association.
proof fn lemma_wire_of_client(opts: Seq<OptionView>, ia: OptionView)
    requires
        1 < opts.len() <= 4,
        opts.last() == ia,
        forall|i: int| 0 <= i < opts.len() - 1 ==> (#[trigger] opts[i]).wire is Some,
    ensures
        ia.wire is None ==> wire_of(opts) is None,
        ia.wire is Some && opts.len() == 2 ==> wire_of(opts) == Some(
            opts[0].wire->Some_0 + ia.wire->Some_0,
        ),
        ia.wire is Some && opts.len() == 3 ==> wire_of(opts) == Some(
            opts[0].wire->Some_0 + opts[1].wire->Some_0 + ia.wire->Some_0,
        ),
        ia.wire is Some && opts.len() == 4 ==> wire_of(opts) == Some(
            opts[0].wire->Some_0 + opts[1].wire->Some_0 + opts[2].wire->Some_0 + ia.wire->Some_0,
        ),
{
    reveal_with_fuel(wire_of, 5);
    let front = opts.drop_last();
    assert(wire_of(front) is Some);
    if opts.len() == 2 {
        assert(wire_of(front)->Some_0 =~= opts[0].wire->Some_0);
    } else if opts.len() == 3 {
        assert(front.drop_last().last() == opts[0]);
        assert(wire_of(front)->Some_0 =~= opts[0].wire->Some_0 + opts[1].wire->Some_0);
    } else {
        assert(front.drop_last().last() == opts[1]);
        assert(front.drop_last().drop_last().last() == opts[0]);
        assert(wire_of(front)->Some_0 =~= opts[0].wire->Some_0 + opts[1].wire->Some_0
            + opts[2].wire->Some_0);
    }
}

/// The container of a message is the payload of its first option 94, if it has one.
pub proof fn lemma_container_is_first_94(m: MessageView, iaid: Option<u32>, i: int)
    requires
        0 <= i <= m.options.len(),
        forall|j: int|
            0 <= j < i ==> (#[trigger] m.options[j]).code != 94 || m.options[j].body !is Unknown,
    ensures
        i < m.options.len() && m.options[i].code == 94 && m.options[i].body is Unknown
            ==> contents_of(m, iaid).container == Some(m.options[i].body->Unknown_0),
        i == m.options.len() ==> contents_of(m, iaid).container is None,
{
    let w = Wanted::Unknown(94);
    assert forall|j: int| 0 <= j < i implies !is_wanted(#[trigger] m.options[j], w) by {
        assert(m.options[j].code != 94 || m.options[j].body !is Unknown);
    }
    if i == m.options.len() || is_wanted(m.options[i], w) {
        lemma_first_at(m.options, w, i);
    }
}

/// The status of a message is that of its first status option, if it has one.
pub proof fn lemma_status_is_first(m: MessageView, iaid: Option<u32>, i: int)
    requires
        0 <= i <= m.options.len(),
        forall|j: int| 0 <= j < i ==> (#[trigger] m.options[j]).body !is Status,
    ensures
        i < m.options.len() && m.options[i].body is Status ==> contents_of(m, iaid).status == Some(
            m.options[i].body->Status_0,
        ) && first_status(m.options) == Some(m.options[i].body->Status_0),
        i == m.options.len() ==> contents_of(m, iaid).status is None && first_status(m.options)
            is None,
{
    let w = Wanted::Status;
    assert forall|j: int| 0 <= j < i implies !is_wanted(#[trigger] m.options[j], w) by {
        assert(m.options[j].body !is Status);
    }
    if i == m.options.len() || is_wanted(m.options[i], w) {
        lemma_first_at(m.options, w, i);
    }
}

/// The address at which a server wants to be spoken to is that of the first such option, if there
/// is one.
pub proof fn lemma_unicast_is_first(m: MessageView, iaid: Option<u32>, i: int)
    requires
        0 <= i <= m.options.len(),
        forall|j: int| 0 <= j < i ==> (#[trigger] m.options[j]).body !is ServerUnicast,
    ensures
        i < m.options.len() && m.options[i].body is ServerUnicast ==> contents_of(
            m,
            iaid,
        ).server_unicast == Some(m.options[i].body->ServerUnicast_0),
        i == m.options.len() ==> contents_of(m, iaid).server_unicast is None,
{
    let w = Wanted::ServerUnicast;
    assert forall|j: int| 0 <= j < i implies !is_wanted(#[trigger] m.options[j], w) by {
        assert(m.options[j].body !is ServerUnicast);
    }
    if i == m.options.len() || is_wanted(m.options[i], w) {
        lemma_first_at(m.options, w, i);
    }
}

/// The identifier of a server is that of the first such option, if there is one, and its preference
/// that of the first such option, or zero.
pub proof fn lemma_server_is_first(opts: Seq<OptionView>, i: int, k: int)
    requires
        0 <= i <= opts.len(),
        forall|j: int| 0 <= j < i ==> (#[trigger] opts[j]).body !is ServerId,
        0 <= k <= opts.len(),
        forall|j: int| 0 <= j < k ==> (#[trigger] opts[j]).body !is Preference,
    ensures
        i < opts.len() && opts[i].body is ServerId ==> first_server_id(opts) == Some(
            opts[i].body->ServerId_0,
        ),
        i == opts.len() ==> first_server_id(opts) is None,
        k < opts.len() && opts[k].body is Preference ==> first_preference(opts)
            == opts[k].body->Preference_0,
        k == opts.len() ==> first_preference(opts) == 0,
{
    assert forall|j: int| 0 <= j < i implies !is_wanted(#[trigger] opts[j], Wanted::ServerId) by {
        assert(opts[j].body !is ServerId);
    }
    assert forall|j: int| 0 <= j < k implies !is_wanted(#[trigger] opts[j], Wanted::Preference) by {
        assert(opts[j].body !is Preference);
    }
    if i == opts.len() || is_wanted(opts[i], Wanted::ServerId) {
        lemma_first_at(opts, Wanted::ServerId, i);
    }
    if k == opts.len() || is_wanted(opts[k], Wanted::Preference) {
        lemma_first_at(opts, Wanted::Preference, k);
    }
}

/// Whether an option is an association that is looked for: any, or the one with the given id.
pub open spec fn is_association(o: OptionView, iaid: Option<u32>) -> bool {
    o.body matches OptionBody::IaPd { id, .. } && (iaid matches Some(wanted) ==> id == wanted)
}

/// What a message delegates is what its first association does, or the first with the id that is
/// looked for: with its timers, its first prefix, and a failure where any status in it, be it the
/// first or a later one, is not zero.
pub proof fn lemma_delegation_is_first(m: MessageView, iaid: Option<u32>, i: int, k: int)
    requires
        0 <= i <= m.options.len(),
        forall|j: int| 0 <= j < i ==> !is_association(#[trigger] m.options[j], iaid),
        i < m.options.len() ==> is_association(m.options[i], iaid),
        i < m.options.len() ==> 0 <= k <= m.options[i].nested.len() && forall|j: int|
            0 <= j < k ==> (#[trigger] m.options[i].nested[j]).body !is IaPrefix,
    ensures
        i == m.options.len() ==> contents_of(m, iaid).delegation is None,
        i < m.options.len() ==> {
            let o = m.options[i];
            let d = contents_of(m, iaid).delegation->Some_0;
            &&& contents_of(m, iaid).delegation is Some
            &&& d.t1 == o.body->t1 && d.t2 == o.body->t2
            &&& k == o.nested.len() ==> d.prefix is None
            &&& k < o.nested.len() && o.nested[k].body is IaPrefix ==> d.prefix == Some(
                DelegatedPrefix {
                    valid_lifetime: o.nested[k].body->valid_lifetime,
                    prefix_len: o.nested[k].body->prefix_len,
                    prefix_ip: o.nested[k].body->prefix_ip,
                },
            )
            &&& d.failed <==> exists|j: int|
                0 <= j < o.nested.len() && (#[trigger] o.nested[j]).body is Status
                    && o.nested[j].body->Status_0 != 0
        },
{
    let w = Wanted::IaPd(iaid);
    assert forall|j: int| 0 <= j < i implies !is_wanted(#[trigger] m.options[j], w) by {
        assert(!is_association(m.options[j], iaid));
    }
    lemma_first_at(m.options, w, i);
    if i < m.options.len() {
        let nested = m.options[i].nested;
        assert forall|j: int| 0 <= j < k implies !is_wanted(
            #[trigger] nested[j],
            Wanted::IaPrefix,
        ) by {
            assert(m.options[i].nested[j].body !is IaPrefix);
        }
        if k == nested.len() || is_wanted(nested[k], Wanted::IaPrefix) {
            lemma_first_at(nested, Wanted::IaPrefix, k);
        }
        lemma_first_or_none(nested, Wanted::Failure);
    }
}

/// The first option of a kind is there just where any is.
proof fn lemma_first_or_none(opts: Seq<OptionView>, w: Wanted)
    ensures
        first(opts, w) is Some <==> exists|j: int|
            0 <= j < opts.len() && is_wanted(#[trigger] opts[j], w),
    decreases opts.len(),
{
    if opts.len() > 0 {
        let rest = opts.drop_first();
        lemma_first_or_none(rest, w);
        if exists|j: int| 0 <= j < opts.len() && is_wanted(#[trigger] opts[j], w) {
            let j = choose|j: int| 0 <= j < opts.len() && is_wanted(#[trigger] opts[j], w);
            if j > 0 {
                assert(rest[j - 1] == opts[j]);
            }
        }
        if exists|j: int| 0 <= j < rest.len() && is_wanted(#[trigger] rest[j], w) {
            let j = choose|j: int| 0 <= j < rest.len() && is_wanted(#[trigger] rest[j], w);
            assert(opts[j + 1] == rest[j]);
        }
    }
}

/// A number in four bytes, the higher ones first.
pub open spec fn four_bytes(v: u32) -> Seq<u8> {
    seq![
        (v / 0x100_0000) as u8,
        (v / 0x1_0000 % 256) as u8,
        (v / 0x100 % 256) as u8,
        (v % 256) as u8,
    ]
}

proof fn lemma_option_is_spelled(code: u16, data: Seq<u8>)
    requires
        data.len() <= 0xffff,
    ensures
        option_bytes(code, data) == spelled(Tlv { code, data }),
{
    assert(option_bytes(code, data) =~= spelled(Tlv { code, data }));
}

/// What a client says in a message: type and transaction, and then, as options that can be read
/// again, who it is (1), whom it speaks to if it speaks to a server (2), that it asks for prefix
/// delegation and the MAP-E container if it asks (6), and the association (25): its id, T1 and T2
/// in four bytes each, and the options inside it.
#[verifier::spinoff_prover]
#[verifier::rlimit(60)]
pub proof fn lemma_client_message_reads_back(
    msg_type: u8,
    xid: Seq<u8>,
    duid: Seq<u8>,
    server: Option<Seq<u8>>,
    asks: bool,
    a: IaPdView,
    inner: Seq<u8>,
)
    requires
        xid.len() == 3,
        duid.len() <= 0xffff,
        server matches Some(id) ==> id.len() <= 0xffff,
        wire_of(a.options) == Some(inner),
        encodable(a.options),
        inner.len() <= 0xffff - 12,
    ensures
        client_message(msg_type, xid, duid, server, asks, a) matches Some(bytes) && {
            &&& bytes[0] == msg_type
            &&& bytes.subrange(1, 4) == xid
            &&& options(bytes.subrange(4, bytes.len() as int)) == seq![Tlv { code: 1, data: duid }]
                + (match server {
                Some(id) => seq![Tlv { code: 2, data: id }],
                None => seq![],
            }) + (if asks {
                seq![Tlv { code: 6, data: seq![0u8, 25, 0, 94] }]
            } else {
                seq![]
            }) + seq![
                Tlv {
                    code: 25,
                    data: four_bytes(a.id) + four_bytes(a.t1) + four_bytes(a.t2) + inner,
                },
            ]
        },
{
    let ia = ia_pd_view(a.id, a.t1, a.t2, a.options);
    let list = seq![ia];
    assert(list[list.len() - 1] == ia);
    assert(list.subrange(0, list.len() - 1) =~= Seq::empty());
    assert(encodable(list.subrange(0, list.len() - 1)));
    assert(encodable(list));
    let payload = four_bytes(a.id) + four_bytes(a.t1) + four_bytes(a.t2) + inner;
    assert(be32_bytes(a.id as int) + be32_bytes(a.t1 as int) + be32_bytes(a.t2 as int) + inner
        =~= payload);
    lemma_option_is_spelled(25, payload);
    lemma_option_is_spelled(1, duid);
    let codes = seq![0u8, 25, 0, 94];
    reveal_with_fuel(be16_list, 3);
    assert(requested_codes().drop_last().drop_last() =~= Seq::empty());
    assert(requested_codes().drop_last().last() == 25);
    assert(be16_list(requested_codes()) =~= codes);
    lemma_option_is_spelled(6, codes);
    let t1 = Tlv { code: 1, data: duid };
    let t6 = Tlv { code: 6, data: codes };
    let t25 = Tlv { code: 25, data: payload };
    let bytes = client_message(msg_type, xid, duid, server, asks, a)->Some_0;
    let rest = bytes.subrange(4, bytes.len() as int);
    assert(bytes.subrange(1, 4) =~= xid);
    let end = spelled(t25);
    assert(end + Seq::<u8>::empty() =~= end);
    lemma_option_reads_back(t25, Seq::empty());
    assert(options(Seq::<u8>::empty()) =~= Seq::<Tlv>::empty());
    assert(options(end) =~= seq![t25]);
    let asked = if asks {
        spelled(t6) + end
    } else {
        end
    };
    let asked_tlvs = if asks {
        seq![t6, t25]
    } else {
        seq![t25]
    };
    if asks {
        lemma_option_reads_back(t6, end);
        assert(seq![t6] + seq![t25] =~= seq![t6, t25]);
    }
    assert(options(asked) == asked_tlvs);
    let spoken = match server {
        Some(id) => spelled(Tlv { code: 2, data: id }) + asked,
        None => asked,
    };
    let spoken_tlvs = match server {
        Some(id) => seq![Tlv { code: 2, data: id }] + asked_tlvs,
        None => asked_tlvs,
    };
    if let Some(id) = server {
        lemma_option_is_spelled(2, id);
        lemma_option_reads_back(Tlv { code: 2, data: id }, asked);
    }
    assert(options(spoken) == spoken_tlvs);
    lemma_option_reads_back(t1, spoken);
    assert(rest =~= spelled(t1) + spoken);
    assert(options(rest) =~= seq![t1] + (match server {
        Some(id) => seq![Tlv { code: 2, data: id }],
        None => seq![],
    }) + (if asks {
        seq![t6]
    } else {
        seq![]
    }) + seq![t25]);
}

/// The length of what precedes the options inside an option, for those that hold options.
pub open spec fn holds_options_after(code: u16, h: int) -> bool {
    ||| (code == 3 || code == 25) && h == 12
    ||| (code == 4 || code == 17) && h == 4
    ||| code == 5 && h == 24
    ||| code == 26 && h == 25
    ||| code == 9 && h == 34
}

/// Options that are as long as their kind has to be reach the decoder as they are, and what
/// follows them as if it stood alone. In an option that holds others, the same is true of those.
pub proof fn lemma_complete_options_are_left_alone(
    t: Tlv,
    head: Seq<u8>,
    inner: Seq<u8>,
    rest: Seq<u8>,
)
    requires
        t.data.len() <= 0xffff,
    ensures
        ({
            let n = t.data.len();
            let plain = !(t.code == 3 || t.code == 4 || t.code == 5 || t.code == 9 || t.code == 17
                || t.code == 25 || t.code == 26);
            let long_enough = (t.code == 7 || t.code == 19 ==> n == 1) && (t.code == 8 ==> n == 2)
                && (t.code == 12 ==> n == 16) && (t.code == 14 || t.code == 20 ==> n == 0)
                && (t.code == 13 ==> n >= 2) && (t.code == 16 ==> n >= 4) && (t.code == 11 ==> n
                >= 11) && (t.code == 23 ==> n % 16 == 0);
            &&& plain && long_enough ==> mended(spelled(t) + rest) == spelled(t) + mended(rest)
            &&& holds_options_after(t.code, head.len() as int) && t.data == head + inner ==> mended(
                spelled(t) + rest,
            ) == spelled(Tlv { code: t.code, data: head + mended(inner) }) + mended(rest)
        }),
{
    let bytes = spelled(t) + rest;
    let n = t.data.len() as int;
    assert(be16(bytes[0], bytes[1]) == t.code);
    assert(be16(bytes[2], bytes[3]) == n);
    assert(bytes.subrange(4 + n, bytes.len() as int) =~= rest);
    assert(bytes.subrange(0, 4 + n) =~= spelled(t));
    if holds_options_after(t.code, head.len() as int) && t.data == head + inner {
        let h = head.len() as int;
        lemma_mended_is_clean(inner);
        assert(bytes.subrange(4 + h, 4 + n) =~= inner);
        assert(bytes.subrange(0, 4 + h) + mended(inner) =~= spelled(
            Tlv { code: t.code, data: head + mended(inner) },
        ));
    }
}

} // verus!
