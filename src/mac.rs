use vstd::prelude::*;
use crate::hex::{hex_byte, parse_hex_byte};

verus! {

/// The groups of `s` between hyphens, left to right. Text without a hyphen is
/// one group; each hyphen starts a new, possibly empty, group.
pub open spec fn split_groups(s: Seq<char>) -> Seq<Seq<char>>
    decreases s.len(),
{
    if s.len() == 0 {
        seq![Seq::empty()]
    } else {
        let g = split_groups(s.drop_last());
        if s.last() == '-' {
            g.push(Seq::empty())
        } else {
            g.update(g.len() - 1, g.last().push(s.last()))
        }
    }
}

/// Text is a MAC address when it has exactly six hyphen-separated groups, each
/// a base-16 number in the range of a byte.
pub open spec fn valid_mac_text(s: Seq<char>) -> bool {
    &&& split_groups(s).len() == 6
    &&& forall|j: int| 0 <= j < 6 ==> (#[trigger] hex_byte(split_groups(s)[j])) is Some
}

/// The six bytes that valid MAC text stands for, group `j` giving byte `j`.
pub open spec fn mac_bytes_of(s: Seq<char>) -> Seq<u8> {
    Seq::new(6, |j: int| hex_byte(split_groups(s)[j])->0)
}

/// The group count that `parse_mac` reports: the number of groups, held at
/// `usize::MAX` for text with more groups than that.
pub open spec fn reported_count(s: Seq<char>) -> int {
    if split_groups(s).len() < usize::MAX {
        split_groups(s).len() as int
    } else {
        usize::MAX as int
    }
}

proof fn lemma_split_groups_nonempty(s: Seq<char>)
    ensures
        split_groups(s).len() >= 1,
        split_groups(s).len() <= s.len() + 1,
    decreases s.len(),
{
    if s.len() > 0 {
        lemma_split_groups_nonempty(s.drop_last());
    }
}

/// The groups of a prefix agree with the groups of the whole text, all but the
/// last; and where a hyphen follows the prefix, its last group is complete too.
proof fn lemma_split_prefix(s: Seq<char>, i: int)
    requires
        0 <= i <= s.len(),
    ensures
        ({
            let p = split_groups(s.subrange(0, i));
            let f = split_groups(s);
            &&& p.len() <= f.len()
            &&& forall|j: int| 0 <= j < p.len() - 1 ==> #[trigger] p[j] == f[j]
            &&& i < s.len() && s[i] == '-' ==> p.len() < f.len() && p.last() == f[p.len() - 1]
        }),
    decreases s.len(),
{
    lemma_split_groups_nonempty(s.subrange(0, i));
    if i == s.len() {
        assert(s.subrange(0, i) =~= s);
    } else {
        let t = s.drop_last();
        assert(s.subrange(0, i) =~= t.subrange(0, i));
        lemma_split_groups_nonempty(t);
        lemma_split_prefix(t, i);
    }
}

/// Why text is not a MAC address.
#[derive(Debug)]
pub enum ParseMacError {
    /// The text does not split on `-` into six groups; holds the group count.
    WrongGroupCount(usize),
    /// The group at `position` (counting from 0) is not a base-16 byte.
    InvalidHexDigit { group: String, position: usize },
}

/// `e` is the error that `parse_mac` reports for text `s`: the group count
/// when it is not six, else the first group that is not a base-16 byte.
pub open spec fn describes_failure(s: Seq<char>, e: ParseMacError) -> bool {
    match e {
        ParseMacError::WrongGroupCount(n) => {
            &&& split_groups(s).len() != 6
            &&& n as int == reported_count(s)
        },
        ParseMacError::InvalidHexDigit { group, position } => {
            &&& split_groups(s).len() == 6
            &&& position < 6
            &&& group@ == split_groups(s)[position as int]
            &&& hex_byte(group@) is None
            &&& forall|j: int| 0 <= j < position ==> (#[trigger] hex_byte(split_groups(s)[j])) is Some
        },
    }
}

impl ParseMacError {
    /// A one-line description for the operator.
    pub fn message(&self) -> (r: String) {
        match self {
            ParseMacError::WrongGroupCount(n) => {
                let mut m = String::from_str("wrong number of groups: ");
                m.append(n.to_string().as_str());
                m
            },
            ParseMacError::InvalidHexDigit { group, position } => {
                let mut m = String::from_str("invalid hex byte '");
                m.append(group.as_str());
                m.append("' in group ");
                m.append(position.to_string().as_str());
                m
            },
        }
    }
}

/// Parses hyphen-separated MAC text, such as `AA-BB-CC-DD-EE-FF`, into its six
/// bytes. Letters of either case are accepted; separators other than `-` are not.
pub fn parse_mac(mac: &str) -> (r: Result<[u8; 6], ParseMacError>)
    ensures
        r is Ok <==> valid_mac_text(mac@),
        match r {
            Ok(b) => b@ == mac_bytes_of(mac@),
            Err(e) => describes_failure(mac@, e),
        },
{
    let n = mac.unicode_len();
    let mut count: usize = 1;
    let mut i: usize = 0;
    while i < n
        invariant
            i <= n,
            n == mac@.len(),
            count as int == if split_groups(mac@.subrange(0, i as int)).len() < usize::MAX {
                split_groups(mac@.subrange(0, i as int)).len() as int
            } else {
                usize::MAX as int
            },
        decreases n - i,
    {
        let c = mac.get_char(i);
        assert(mac@.subrange(0, i + 1).drop_last() =~= mac@.subrange(0, i as int));
        proof {
            lemma_split_groups_nonempty(mac@.subrange(0, i as int));
        }
        if c == '-' && count < usize::MAX {
            count = count + 1;
        }
        i = i + 1;
    }
    assert(mac@.subrange(0, n as int) =~= mac@);
    if count != 6 {
        return Err(ParseMacError::WrongGroupCount(count));
    }
    let mut bytes: Vec<u8> = Vec::new();
    let mut start: usize = 0;
    let mut i: usize = 0;
    while i < n
        invariant
            start <= i <= n,
            n == mac@.len(),
            split_groups(mac@).len() == 6,
            split_groups(mac@.subrange(0, i as int)).len() == bytes@.len() + 1,
            split_groups(mac@.subrange(0, i as int)).last() == mac@.subrange(
                start as int,
                i as int,
            ),
            forall|j: int|
                0 <= j < bytes@.len() ==> hex_byte(#[trigger] split_groups(mac@)[j]) == Some(
                    bytes@[j],
                ),
        decreases n - i,
    {
        let c = mac.get_char(i);
        let ghost p = split_groups(mac@.subrange(0, i as int));
        assert(mac@.subrange(0, i + 1).drop_last() =~= mac@.subrange(0, i as int));
        proof {
            lemma_split_groups_nonempty(mac@.subrange(0, i as int));
        }
        if c == '-' {
            proof {
                lemma_split_prefix(mac@, i as int);
            }
            let group = mac.substring_char(start, i);
            match parse_hex_byte(group) {
                None => {
                    return Err(
                        ParseMacError::InvalidHexDigit {
                            group: String::from_str(group),
                            position: bytes.len(),
                        },
                    );
                },
                Some(b) => {
                    bytes.push(b);
                    start = i + 1;
                    assert(mac@.subrange(start as int, i + 1) =~= Seq::<char>::empty());
                },
            }
        } else {
            assert(mac@.subrange(start as int, i + 1) =~= mac@.subrange(start as int, i as int).push(c));
        }
        i = i + 1;
    }
    assert(mac@.subrange(0, n as int) =~= mac@);
    let group = mac.substring_char(start, n);
    match parse_hex_byte(group) {
        None => {
            Err(
                ParseMacError::InvalidHexDigit {
                    group: String::from_str(group),
                    position: bytes.len(),
                },
            )
        },
        Some(b) => {
            bytes.push(b);
            let arr: [u8; 6] = [bytes[0], bytes[1], bytes[2], bytes[3], bytes[4], bytes[5]];
            assert(arr@ =~= mac_bytes_of(mac@));
            Ok(arr)
        },
    }
}

} // verus!
