use vstd::prelude::*;
use vstd::string::StringSliceAdditionalSpecFns;
use vstd::utf8::encode_utf8;

verus! {

/// `needle` occurs in `hay` starting at byte `i`.
pub open spec fn occurs_at(hay: Seq<u8>, needle: Seq<u8>, i: int) -> bool {
    0 <= i && i + needle.len() <= hay.len() && hay.subrange(i, i + needle.len()) == needle
}

/// The first occurrence of `needle` in `hay` starts at byte `i`.
pub open spec fn first_at(hay: Seq<u8>, needle: Seq<u8>, i: int) -> bool {
    occurs_at(hay, needle, i) && forall|j: int| 0 <= j < i ==> !occurs_at(hay, needle, j)
}

/// The first occurrence of `port` in `name` is followed by a comma.
pub open spec fn port_matches(name: Seq<u8>, port: Seq<u8>) -> bool {
    exists|i: int| #[trigger] first_at(name, port, i) && i + port.len() < name.len() && name[i + port.len()] == 0x2c
}

/// The position of the first occurrence of `needle` in `hay`, if any.
fn find_bytes(hay: &[u8], needle: &[u8]) -> (r: Option<usize>)
    ensures
        r is Some ==> first_at(hay@, needle@, r->0 as int),
        r is None ==> forall|j: int| 0 <= j ==> !occurs_at(hay@, needle@, j),
{
    let hay_len = hay.len();
    if needle.len() > hay_len {
        return None;
    }
    let last = hay_len - needle.len();
    let mut i: usize = 0;
    while i <= last
        invariant
            hay@.len() == hay_len,
            last == hay@.len() - needle@.len(),
            i <= last,
            forall|j: int| 0 <= j < i ==> !occurs_at(hay@, needle@, j),
        decreases last + 1 - i,
    {
        let mut k: usize = 0;
        let mut same = true;
        assert(hay@.subrange(i as int, i as int) =~= needle@.take(0));
        while k < needle.len() && same
            invariant
                hay@.len() == hay_len,
                i <= last,
                last == hay@.len() - needle@.len(),
                k <= needle@.len(),
                same == (hay@.subrange(i as int, i + k) == needle@.take(k as int)),
            decreases needle@.len() - k,
        {
            if hay[i + k] != needle[k] {
                same = false;
                assert(hay@.subrange(i as int, i + k + 1)[k as int] != needle@.take(k + 1)[k as int]);
            } else {
                assert(hay@.subrange(i as int, i + k + 1) =~= needle@.take(k + 1));
            }
            k += 1;
            if !same {
                assert(hay@.subrange(i as int, i + k) != needle@.take(k as int));
            }
        }
        if same {
            assert(needle@.take(needle@.len() as int) =~= needle@);
            return Some(i);
        }
        proof {
            if occurs_at(hay@, needle@, i as int) {
                assert(hay@.subrange(i as int, i + k) =~= hay@.subrange(i as int, i + needle@.len()).take(k as int));
            }
        }
        if i == last {
            assert forall|j: int| 0 <= j implies !occurs_at(hay@, needle@, j) by {}
            return None;
        }
        i += 1;
    }
    None
}

/// `prefix` is a prefix of `hay`.
fn starts_with_bytes(hay: &[u8], prefix: &[u8]) -> (r: bool)
    ensures
        r == prefix@.is_prefix_of(hay@),
{
    if prefix.len() > hay.len() {
        return false;
    }
    let mut k: usize = 0;
    while k < prefix.len()
        invariant
            prefix@.len() <= hay@.len(),
            k <= prefix@.len(),
            forall|j: int| 0 <= j < k ==> hay@[j] == prefix@[j],
        decreases prefix@.len() - k,
    {
        if hay[k] != prefix[k] {
            return false;
        }
        k += 1;
    }
    assert(hay@.take(prefix@.len() as int) =~= prefix@);
    true
}

/// `a` and `b` hold the same bytes.
fn equal_bytes(a: &[u8], b: &[u8]) -> (r: bool)
    ensures
        r == (a@ == b@),
{
    if a.len() != b.len() {
        return false;
    }
    let mut k: usize = 0;
    while k < a.len()
        invariant
            a@.len() == b@.len(),
            k <= a@.len(),
            forall|j: int| 0 <= j < k ==> a@[j] == b@[j],
        decreases a@.len() - k,
    {
        if a[k] != b[k] {
            return false;
        }
        k += 1;
    }
    assert(a@ =~= b@);
    true
}

/// How to recognise a sound card among the long names the system lists.
pub enum AlsaCardHint {
    AlsaNone,
    /// The card sits on this USB port ("usb-101c0000.ehci-1.2"): the long
    /// name holds the port followed by a comma.
    AlsaUsbPort(&'static str),
    /// The long name starts with this name ("USB Sound Device").
    AlsaName(&'static str),
    /// The long name is exactly this.
    AlsaLongName(&'static str),
}

impl AlsaCardHint {
    /// Whether a card with long name `name` (as UTF-8 bytes) fits the hint.
    pub open spec fn fits(&self, name: Seq<u8>) -> bool {
        match *self {
            AlsaCardHint::AlsaNone => false,
            AlsaCardHint::AlsaUsbPort(port) => port_matches(name, port.spec_bytes()),
            AlsaCardHint::AlsaName(n) => n.spec_bytes().is_prefix_of(name),
            AlsaCardHint::AlsaLongName(ln) => name == ln.spec_bytes(),
        }
    }

    /// Whether a card whose long name is `longname` fits the hint. For a
    /// port, only the first place the port occurs in the name counts.
    pub fn match_longname(&self, longname: &String) -> (r: bool)
        ensures
            r == self.fits(encode_utf8(longname@)),
    {
        let name = longname.as_str().as_bytes();
        let name_len = name.len();
        match self {
            AlsaCardHint::AlsaNone => false,
            AlsaCardHint::AlsaUsbPort(port) => {
                let p = port.as_bytes();
                match find_bytes(name, p) {
                    Some(index) => {
                        let after = index + p.len();
                        let r = after < name_len && name[after] == 0x2c;
                        proof {
                            if r {
                                assert(first_at(name@, p@, index as int));
                            } else if port_matches(name@, p@) {
                                let i = choose|i: int| #[trigger] first_at(name@, p@, i) && i + p@.len() < name@.len()
                                    && name@[i + p@.len()] == 0x2c;
                                if i < index {
                                    assert(!occurs_at(name@, p@, i));
                                } else if i > index {
                                    assert(!occurs_at(name@, p@, index as int));
                                }
                            }
                        }
                        r
                    },
                    None => false,
                }
            },
            AlsaCardHint::AlsaName(n) => starts_with_bytes(name, n.as_bytes()),
            AlsaCardHint::AlsaLongName(ln) => equal_bytes(name, ln.as_bytes()),
        }
    }
}

/// The index of the first long name in `longnames` that fits `hint` or
/// equals `pcm_hint`: the card a device node should open.
pub fn find_card(hint: &AlsaCardHint, pcm_hint: &str, longnames: &Vec<String>) -> (r: Option<usize>)
    ensures
        r is Some ==> {
            let i = r->0 as int;
            &&& 0 <= i < longnames@.len()
            &&& hint.fits(encode_utf8(longnames@[i]@)) || longnames@[i]@ == pcm_hint@
            &&& forall|j: int| 0 <= j < i ==> !(hint.fits(encode_utf8(longnames@[j]@)) || longnames@[j]@ == pcm_hint@)
        },
        r is None ==> forall|j: int| 0 <= j < longnames@.len() ==> !(hint.fits(encode_utf8(longnames@[j]@))
            || longnames@[j]@ == pcm_hint@),
{
    let mut i: usize = 0;
    while i < longnames.len()
        invariant
            i <= longnames@.len(),
            forall|j: int| 0 <= j < i ==> !(hint.fits(encode_utf8(longnames@[j]@)) || longnames@[j]@ == pcm_hint@),
        decreases longnames@.len() - i,
    {
        let name = &longnames[i];
        let same = equal_bytes(name.as_str().as_bytes(), pcm_hint.as_bytes());
        proof {
            vstd::utf8::encode_utf8_decode_utf8(longnames@[i as int]@);
            vstd::utf8::encode_utf8_decode_utf8(pcm_hint@);
        }
        if hint.match_longname(name) || same {
            return Some(i);
        }
        i += 1;
    }
    None
}

} // verus!
