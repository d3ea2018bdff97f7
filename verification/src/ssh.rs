//! The ssh command line that carries the selected key.
use vstd::prelude::*;

use crate::text::{copy_str, str_eq, views};

verus! {

/// The decimal digit `d` (0..=9) as a character.
pub open spec fn digit_char(d: int) -> char {
    (48 + d) as char
}

/// The decimal representation of `n`, without leading zeros (`u16::to_string`).
pub open spec fn decimal(n: nat) -> Seq<char>
    decreases n,
{
    if n < 10 {
        seq![digit_char(n as int)]
    } else {
        decimal(n / 10).push(digit_char((n % 10) as int))
    }
}

/// The options put in front of git's arguments: the key, `IdentitiesOnly=yes` and
/// `IdentityAgent=none`, then `UseKeychain=yes` when the keychain is used, then the rule's
/// port unless the arguments already give one.
pub open spec fn injected_args(key: Seq<char>, port: Option<u16>, keychain: bool, has_port: bool) -> Seq<
    Seq<char>,
> {
    seq!["-i"@, key, "-o"@, "IdentitiesOnly=yes"@, "-o"@, "IdentityAgent=none"@] + (if keychain {
        seq!["-o"@, "UseKeychain=yes"@]
    } else {
        Seq::empty()
    }) + (match port {
        Some(p) => if has_port {
            Seq::empty()
        } else {
            seq!["-p"@, decimal(p as nat)]
        },
        None => Seq::empty(),
    })
}

/// Some argument is exactly `-p`.
pub open spec fn has_port_in(args: Seq<Seq<char>>) -> bool {
    args.contains("-p"@)
}

/// The keychain is used only when it is asked for and the target is macOS.
pub open spec fn keychain_in_use(use_macos_keychain: bool, on_macos: bool) -> bool {
    use_macos_keychain && on_macos
}

/// Appends the decimal representation of `n` to `out`.
fn push_decimal(n: u16, out: &mut String)
    ensures
        final(out)@ == old(out)@ + decimal(n as nat),
    decreases n,
{
    if n >= 10 {
        push_decimal(n / 10, out);
    }
    let d: u8 = (n % 10) as u8;
    let c: char = (48u8 + d) as char;
    assert(c == digit_char((n % 10) as int));
    crate::text::push_char(out, c);
    assert(n >= 10 ==> (n as nat) / 10 == (n / 10) as nat);
}

/// `n` in decimal.
pub fn u16_to_decimal(n: u16) -> (r: String)
    ensures
        r@ == decimal(n as nat),
{
    let mut s = String::new();
    push_decimal(n, &mut s);
    assert(s@ =~= decimal(n as nat));
    s
}

/// Whether git's arguments already contain a `-p` port flag.
pub fn has_port_flag(args: &[String]) -> (r: bool)
    ensures
        r == has_port_in(views(args@)),
{
    let ghost vs = views(args@);
    let mut i: usize = 0;
    while i < args.len()
        invariant
            vs == views(args@),
            i <= args@.len(),
            forall|j: int| 0 <= j < i ==> vs[j] != "-p"@,
        decreases args@.len() - i,
    {
        if str_eq(args[i].as_str(), "-p") {
            assert(vs[i as int] == "-p"@);
            return true;
        }
        i = i + 1;
    }
    assert(!vs.contains("-p"@));
    false
}

/// Whether ssh is asked to use the macOS keychain.
pub fn should_use_keychain(use_macos_keychain: bool, on_macos: bool) -> (r: bool)
    ensures
        r == keychain_in_use(use_macos_keychain, on_macos),
{
    use_macos_keychain && on_macos
}

/// The ssh binary to run: the system one when the keychain is used (only it knows
/// `UseKeychain`), else whatever `ssh` is on the `PATH`.
pub fn ssh_program(use_macos_keychain: bool, on_macos: bool) -> (r: &'static str)
    ensures
        keychain_in_use(use_macos_keychain, on_macos) ==> r@ == "/usr/bin/ssh"@,
        !keychain_in_use(use_macos_keychain, on_macos) ==> r@ == "ssh"@,
{
    if should_use_keychain(use_macos_keychain, on_macos) {
        "/usr/bin/ssh"
    } else {
        "ssh"
    }
}

/// The arguments for ssh: the selected key and the options that make it the only identity
/// offered, then git's own arguments unchanged. Injected options come first, so they take
/// precedence over the same options in git's arguments.
pub fn build_ssh_args(
    original_args: &[String],
    key_path: &str,
    port: Option<u16>,
    use_macos_keychain: bool,
    on_macos: bool,
) -> (r: Vec<String>)
    ensures
        views(r@) == injected_args(
            key_path@,
            port,
            keychain_in_use(use_macos_keychain, on_macos),
            has_port_in(views(original_args@)),
        ) + views(original_args@),
{
    let mut r: Vec<String> = Vec::new();
    r.push(copy_str("-i"));
    r.push(copy_str(key_path));
    r.push(copy_str("-o"));
    r.push(copy_str("IdentitiesOnly=yes"));
    r.push(copy_str("-o"));
    r.push(copy_str("IdentityAgent=none"));
    let keychain = should_use_keychain(use_macos_keychain, on_macos);
    if keychain {
        r.push(copy_str("-o"));
        r.push(copy_str("UseKeychain=yes"));
    }
    let has_port = has_port_flag(original_args);
    match port {
        Some(p) => {
            if !has_port {
                r.push(copy_str("-p"));
                r.push(u16_to_decimal(p));
            }
        },
        None => {},
    }
    let ghost inj = injected_args(key_path@, port, keychain, has_port);
    assert(views(r@) =~= inj);
    let mut i: usize = 0;
    while i < original_args.len()
        invariant
            i <= original_args@.len(),
            views(r@) == inj + views(original_args@).take(i as int),
        decreases original_args@.len() - i,
    {
        let ghost before = r@;
        r.push(original_args[i].clone());
        assert(views(r@) =~= views(before).push(original_args@[i as int]@));
        assert(views(original_args@).take(i + 1) =~= views(original_args@).take(i as int).push(
            original_args@[i as int]@,
        ));
        i = i + 1;
    }
    assert(views(original_args@).take(original_args@.len() as int) =~= views(original_args@));
    r
}

/// The selected key always comes first, followed by `IdentitiesOnly=yes` and
/// `IdentityAgent=none`, so ssh offers only that key whatever git's own arguments say; git's
/// arguments follow unchanged.
pub proof fn lemma_selected_key_takes_precedence(
    original: Seq<Seq<char>>,
    key: Seq<char>,
    port: Option<u16>,
    keychain: bool,
)
    ensures
        ({
            let r = injected_args(key, port, keychain, has_port_in(original)) + original;
            &&& r.len() >= 6 + original.len()
            &&& r[0] == "-i"@ && r[1] == key
            &&& r[2] == "-o"@ && r[3] == "IdentitiesOnly=yes"@
            &&& r[4] == "-o"@ && r[5] == "IdentityAgent=none"@
            &&& r.subrange(r.len() - original.len(), r.len() as int) == original
        }),
{
    let inj = injected_args(key, port, keychain, has_port_in(original));
    let r = inj + original;
    assert(r.subrange(r.len() - original.len(), r.len() as int) =~= original);
}

/// A port flag already in git's arguments is kept and no second one is added (the options
/// put in front hold no `-p` besides, possibly, the key path itself); a configured port is
/// added, as the last option put in front, only when git's arguments have none.
pub proof fn lemma_explicit_port_preserved(original: Seq<Seq<char>>, key: Seq<char>, port: Option<u16>, keychain: bool)
    ensures
        ({
            let inj = injected_args(key, port, keychain, has_port_in(original));
            &&& has_port_in(original) ==> forall|k: int| 0 <= k < inj.len() && k != 1 ==> #[trigger] inj[k] != "-p"@
            &&& !has_port_in(original) && port is Some ==> {
                &&& inj.len() >= 2
                &&& inj[inj.len() - 2] == "-p"@
                &&& inj[inj.len() - 1] == decimal(port->0 as nat)
            }
        }),
{
    let inj = injected_args(key, port, keychain, has_port_in(original));
    reveal_strlit("-p");
    reveal_strlit("-i");
    reveal_strlit("-o");
    reveal_strlit("IdentitiesOnly=yes");
    reveal_strlit("IdentityAgent=none");
    reveal_strlit("UseKeychain=yes");
    if has_port_in(original) {
        assert forall|k: int| 0 <= k < inj.len() && k != 1 implies #[trigger] inj[k] != "-p"@ by {
            assert(inj[k].len() != 2 || inj[k][1] != 'p');
        }
    }
}

/// The decimal text of `n` is what reading it back gives `n` from: nonempty, digits only,
/// no leading zero (but for `0` itself), and of value `n`.
pub proof fn lemma_decimal_reads_back(n: nat)
    ensures
        decimal(n).len() > 0,
        forall|k: int| 0 <= k < decimal(n).len() ==> '0' <= #[trigger] decimal(n)[k] <= '9',
        n > 0 ==> decimal(n)[0] != '0',
        crate::init::digits_value(decimal(n)) == n,
    decreases n,
{
    let d = decimal(n);
    if n < 10 {
        assert(d =~= seq![digit_char(n as int)]);
        assert(digit_char(n as int) as int == 48 + n);
        assert(d.drop_last() =~= Seq::<char>::empty());
        assert(crate::init::digits_value(d.drop_last()) == 0);
        assert(d.last() == digit_char(n as int));
        assert(crate::init::digits_value(d) == crate::init::digits_value(d.drop_last()) * 10 + (d.last() as int - 48));
    } else {
        lemma_decimal_reads_back(n / 10);
        let q = decimal(n / 10);
        assert(d =~= q.push(digit_char((n % 10) as int)));
        assert(d.drop_last() =~= q);
        assert(digit_char((n % 10) as int) as int == 48 + n % 10);
        assert(d[0] == q[0]);
        assert forall|k: int| 0 <= k < d.len() implies '0' <= #[trigger] d[k] <= '9' by {
            if k < q.len() {
                assert(d[k] == q[k]);
            }
        }
        assert(d.last() == digit_char((n % 10) as int));
        assert(crate::init::digits_value(d) == crate::init::digits_value(d.drop_last()) * 10 + (d.last() as int - 48));
        assert(crate::init::digits_value(d) == (n / 10) * 10 + n % 10);
        assert((n / 10) * 10 + n % 10 == n);
    }
}

/// The port put on the ssh command line, when git's arguments give none, is `-p` followed
/// by text that `str::parse::<u16>` reads back as exactly the rule's port.
pub proof fn lemma_port_argument_reads_back(key: Seq<char>, port: u16, keychain: bool)
    ensures
        ({
            let inj = injected_args(key, Some(port), keychain, false);
            &&& inj.len() >= 2
            &&& inj[inj.len() - 2] == "-p"@
            &&& crate::init::parse_u16(inj[inj.len() - 1]) == Some(port)
        }),
{
    let inj = injected_args(key, Some(port), keychain, false);
    let d = decimal(port as nat);
    lemma_decimal_reads_back(port as nat);
    assert(inj[inj.len() - 1] == d);
    assert(crate::init::unsigned_part(d) == d);
    assert forall|k: int| 0 <= k < d.len() implies crate::init::is_digit(#[trigger] d[k]) by {
        assert('0' <= d[k] <= '9');
    }
}

} // verus!
