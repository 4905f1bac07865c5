use vstd::prelude::*;

use crate::text::push_char;

verus! {

/// The digit character for `d`.
pub open spec fn digit_char(d: nat) -> char {
    ((48 + d) as u8) as char
}

/// Decimal digits of `n`, most significant first, without leading zeros.
pub open spec fn decimal(n: nat) -> Seq<char>
    decreases n,
{
    if n < 10 {
        seq![digit_char(n)]
    } else {
        decimal(n / 10).push(digit_char(n % 10))
    }
}

pub(crate) fn push_decimal(s: &mut String, n: u128)
    ensures
        final(s)@ == old(s)@ + decimal(n as nat),
    decreases n,
{
    if n >= 10 {
        push_decimal(s, n / 10);
    }
    let d: u8 = (n % 10) as u8;
    let c = (48u8 + d) as char;
    push_char(s, c);
    if n < 10 {
        assert(old(s)@ + decimal(n as nat) =~= old(s)@.push(c));
    } else {
        assert(old(s)@ + decimal(n as nat) =~= (old(s)@ + decimal((n / 10) as nat)).push(c));
    }
}

/// `n` in decimal.
pub fn u64_to_decimal(n: u64) -> (r: String)
    ensures
        r@ == decimal(n as nat),
{
    let mut s = String::new();
    push_decimal(&mut s, n as u128);
    assert(Seq::<char>::empty() + decimal(n as nat) =~= decimal(n as nat));
    s
}

/// Where a terminal was started: its workspace, pane, surface and directory.
#[derive(Clone, Debug, PartialEq, Eq)]
pub struct StartupEnvironment {
    workspace_id: u64,
    pane_id: u64,
    surface_id: u64,
    cwd: String,
}

pub open spec fn pair_view(p: (String, String)) -> (Seq<char>, Seq<char>) {
    (p.0@, p.1@)
}

pub open spec fn pairs_view(v: Seq<(String, String)>) -> Seq<(Seq<char>, Seq<char>)> {
    v.map_values(|p: (String, String)| pair_view(p))
}

/// The variables a terminal started for the given place sees, in this order.
pub open spec fn startup_pairs(workspace_id: u64, pane_id: u64, surface_id: u64, cwd: Seq<char>) -> Seq<
    (Seq<char>, Seq<char>),
> {
    seq![
        ("UMUX_WORKSPACE_ID"@, decimal(workspace_id as nat)),
        ("UMUX_PANE_ID"@, decimal(pane_id as nat)),
        ("UMUX_SURFACE_ID"@, decimal(surface_id as nat)),
        ("UMUX_CWD"@, cwd),
        ("UMUX_TERMINAL"@, "1"@),
    ]
}

impl StartupEnvironment {
    pub fn new(workspace_id: u64, pane_id: u64, surface_id: u64, cwd: &str) -> (r: Self)
        ensures
            r.pairs_spec() == startup_pairs(workspace_id, pane_id, surface_id, cwd@),
    {
        StartupEnvironment { workspace_id, pane_id, surface_id, cwd: String::from_str(cwd) }
    }

    pub closed spec fn pairs_spec(self) -> Seq<(Seq<char>, Seq<char>)> {
        startup_pairs(self.workspace_id, self.pane_id, self.surface_id, self.cwd@)
    }

    /// The variables as name and value pairs; no name occurs twice.
    pub fn into_pairs(self) -> (r: Vec<(String, String)>)
        ensures
            pairs_view(r@) == self.pairs_spec(),
    {
        let mut v: Vec<(String, String)> = Vec::new();
        v.push((String::from_str("UMUX_WORKSPACE_ID"), u64_to_decimal(self.workspace_id)));
        v.push((String::from_str("UMUX_PANE_ID"), u64_to_decimal(self.pane_id)));
        v.push((String::from_str("UMUX_SURFACE_ID"), u64_to_decimal(self.surface_id)));
        v.push((String::from_str("UMUX_CWD"), self.cwd));
        v.push((String::from_str("UMUX_TERMINAL"), String::from_str("1")));
        assert(pairs_view(v@) =~= self.pairs_spec());
        v
    }
}

} // verus!
