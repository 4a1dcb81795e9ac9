use vstd::prelude::*;
use crate::mac::{describes_failure, parse_mac, valid_mac_text, ParseMacError};

verus! {

/// What `str::trim` leaves of some text.
pub uninterp spec fn trimmed(s: Seq<char>) -> Seq<char>;

/// What `str::to_uppercase` makes of some text.
pub uninterp spec fn uppercased(s: Seq<char>) -> Seq<char>;

/// Relies on `str::trim`: strips leading and trailing whitespace, a function
/// of the characters alone.
#[verifier::external_body]
fn trim_text(s: &str) -> (r: String)
    ensures
        r@ == trimmed(s@),
{
    s.trim().to_string()
}

/// Relies on `str::to_uppercase`: Unicode upper-case mapping, a function of the
/// characters alone.
#[verifier::external_body]
fn uppercase_text(s: &str) -> (r: String)
    ensures
        r@ == uppercased(s@),
{
    s.to_uppercase()
}

/// The text with every `:` turned into `-`.
pub open spec fn colons_to_hyphens(s: Seq<char>) -> Seq<char> {
    Seq::new(s.len(), |i: int| if s[i] == ':' { '-' } else { s[i] })
}

fn replace_colons(s: &str) -> (r: String)
    ensures
        r@ == colons_to_hyphens(s@),
{
    let n = s.unicode_len();
    let mut out = String::new();
    let mut i: usize = 0;
    while i < n
        invariant
            i <= n,
            n == s@.len(),
            out@ == colons_to_hyphens(s@.subrange(0, i as int)),
        decreases n - i,
    {
        let c = s.get_char(i);
        if c == ':' {
            proof {
                reveal_strlit("-");
            }
            out.append("-");
        } else {
            out.append(s.substring_char(i, i + 1));
        }
        assert(out@ =~= colons_to_hyphens(s@.subrange(0, i + 1)));
        i = i + 1;
    }
    assert(s@.subrange(0, n as int) =~= s@);
    out
}

/// The canonical form of MAC text as entered: `:` separators become `-`,
/// surrounding whitespace goes, and letters are upper-cased.
pub open spec fn normalized_mac(s: Seq<char>) -> Seq<char> {
    uppercased(trimmed(colons_to_hyphens(s)))
}

/// A registered host: a name, its MAC text, and optionally its IP text.
#[derive(Debug)]
pub struct WolDevice {
    /// Assigned by the registry; absent on a device not yet stored.
    pub id: Option<i32>,
    pub name: String,
    pub mac: String,
    pub ip: Option<String>,
}

impl WolDevice {
    /// Whether `self` is `d` in normalized form.
    pub open spec fn is_normalized_from(self, d: WolDevice) -> bool {
        &&& self.id == d.id
        &&& self.name@ == trimmed(d.name@)
        &&& self.mac@ == normalized_mac(d.mac@)
        &&& self.ip is Some <==> d.ip is Some
        &&& d.ip is Some ==> self.ip->0@ == trimmed(d.ip->0@)
    }

    /// The device with its fields tidied as entered by an operator.
    pub fn normalize(self) -> (r: Self)
        ensures
            r.is_normalized_from(self),
    {
        let replaced = replace_colons(self.mac.as_str());
        let trimmed_mac = trim_text(replaced.as_str());
        let mac = uppercase_text(trimmed_mac.as_str());
        let ip = match &self.ip {
            Some(ip) => Some(trim_text(ip.as_str())),
            None => None,
        };
        let name = trim_text(self.name.as_str());
        WolDevice { id: self.id, name, mac, ip }
    }
}

/// Normalizes a device entered by an operator and checks its MAC text, so that
/// only devices with a usable address are written to the registry.
pub fn prepare_for_write(device: WolDevice) -> (r: Result<WolDevice, ParseMacError>)
    ensures
        r is Ok <==> valid_mac_text(normalized_mac(device.mac@)),
        r is Ok ==> r->Ok_0.is_normalized_from(device),
        r is Err ==> describes_failure(normalized_mac(device.mac@), r->Err_0),
{
    let d = device.normalize();
    match parse_mac(d.mac.as_str()) {
        Ok(_) => Ok(d),
        Err(e) => Err(e),
    }
}

} // verus!
