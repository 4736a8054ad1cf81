//! The command line: options, saved connections, and the address to listen on.

use vstd::prelude::*;

use crate::addr::{IpAddr, Ipv4Addr, Ipv6Addr, SocketAddr, SocketAddrV4, SocketAddrV6};
use crate::profiles;
use crate::profiles::{ConnectionProfile, ProfileForm, ProfileStore};
use crate::text;

verus! {

// ---------------------------------------------------------------- listening address

/// Whether an IPv6 address is reachable from everywhere.
pub open spec fn global_ipv6(addr: Ipv6Addr) -> bool {
    &&& addr != Ipv6Addr::loopback_spec()
    &&& addr != Ipv6Addr::unspecified_spec()
    &&& addr.s0 < 0xff00
    &&& !(0xfe80 <= addr.s0 <= 0xfebf)
    &&& !(0xfc00 <= addr.s0 <= 0xfdff)
}

/// Whether an IPv6 address is reachable from everywhere.
pub fn is_global_ipv6(addr: Ipv6Addr) -> (r: bool)
    ensures
        r == global_ipv6(addr),
{
    !(addr.is_loopback() || addr.is_multicast() || addr.is_unspecified()
        || addr.is_unicast_link_local() || addr.is_unique_local())
}

/// Whether one of the machine's addresses is an IPv6 address reachable from everywhere.
pub open spec fn any_global_ipv6(interfaces: Seq<IpAddr>) -> bool {
    exists|i: int|
        0 <= i < interfaces.len() && ((#[trigger] interfaces[i]) matches IpAddr::V6(ip)
            && global_ipv6(ip))
}

/// Whether one of the machine's addresses is an IPv6 address reachable from everywhere.
pub fn has_global_ipv6(interfaces: &Vec<IpAddr>) -> (r: bool)
    ensures
        r == any_global_ipv6(interfaces@),
{
    let mut i: usize = 0;
    while i < interfaces.len()
        invariant
            i <= interfaces@.len(),
            forall|k: int|
                0 <= k < i ==> !((#[trigger] interfaces@[k]) matches IpAddr::V6(ip) && global_ipv6(
                    ip,
                )),
        decreases interfaces@.len() - i,
    {
        if let IpAddr::V6(ip) = interfaces[i] {
            if is_global_ipv6(ip) {
                assert(interfaces@[i as int] matches IpAddr::V6(ip) && global_ipv6(ip));
                return true;
            }
        }
        i += 1;
    }
    false
}

/// Any address of a family, any port.
pub open spec fn any_addr(v6: bool) -> SocketAddr {
    if v6 {
        SocketAddr::V6(
            SocketAddrV6 {
                ip: Ipv6Addr::unspecified_spec(),
                port: 0,
                flowinfo: 0,
                scope_id: 0,
            },
        )
    } else {
        SocketAddr::V4(SocketAddrV4 { ip: Ipv4Addr::unspecified_spec(), port: 0 })
    }
}

/// The address to listen on: the configured one, else any address of the family that the
/// machine is best reached by.
pub fn default_bind_addr(configured: Option<SocketAddr>, interfaces: &Vec<IpAddr>) -> (r:
    SocketAddr)
    ensures
        r == match configured {
            Some(addr) => addr,
            None => any_addr(any_global_ipv6(interfaces@)),
        },
{
    match configured {
        Some(addr) => addr,
        None => if has_global_ipv6(interfaces) {
            SocketAddr::V6(
                SocketAddrV6 { ip: Ipv6Addr::unspecified(), port: 0, flowinfo: 0, scope_id: 0 },
            )
        } else {
            SocketAddr::V4(SocketAddrV4 { ip: Ipv4Addr::unspecified(), port: 0 })
        },
    }
}

// ---------------------------------------------------------------- options

/// An argument, and the address that it is where it is one.
#[derive(Debug)]
pub struct CliArg {
    pub text: String,
    pub addr: Option<SocketAddr>,
}

/// What an option that ends the command line does without its value.
#[derive(Clone, Copy, Debug, PartialEq, Eq, Structural)]
pub enum MissingValue {
    /// It takes back what it was given before.
    Clears,
    /// It leaves alone what it was given before.
    Keeps,
}

/// What to do with saved connections.
#[derive(Debug)]
pub struct ProfileActions {
    pub to_load: Option<String>,
    pub to_save: Option<String>,
    pub to_delete: Option<String>,
    pub list_all: bool,
}

/// What the command line says of congestion tuning. The gain is a decimal fraction: its
/// values stand in order, and the last that is a number counts.
#[derive(Debug)]
pub struct AutotuneChoice {
    pub enabled: Option<bool>,
    pub gain: Vec<String>,
    pub max_window: Option<u64>,
}

/// What the command line says.
#[derive(Debug)]
pub struct CliOptions {
    pub bind_addr: SocketAddr,
    pub peer_addr: Option<SocketAddr>,
    pub autotune: AutotuneChoice,
    pub peer_label: Option<String>,
    pub peer_key: Option<String>,
    pub profile_actions: ProfileActions,
}

/// What the program starts with.
#[derive(Debug)]
pub struct CliArgs {
    pub bind_addr: SocketAddr,
    pub peer_addr: Option<SocketAddr>,
    pub autotune: AutotuneChoice,
    pub peer_label: Option<String>,
}

/// An argument as a value of mathematics.
pub struct ArgForm {
    pub text: Seq<char>,
    pub addr: Option<SocketAddr>,
}

/// Options as a value of mathematics.
pub struct OptionsForm {
    pub bind_addr: SocketAddr,
    pub peer_addr: Option<SocketAddr>,
    pub enabled: Option<bool>,
    pub gain: Seq<Seq<char>>,
    pub max_window: Option<u64>,
    pub peer_label: Option<Seq<char>>,
    pub peer_key: Option<Seq<char>>,
    pub to_load: Option<Seq<char>>,
    pub to_save: Option<Seq<char>>,
    pub to_delete: Option<Seq<char>>,
    pub list_all: bool,
}

impl View for CliArg {
    type V = ArgForm;

    open spec fn view(&self) -> ArgForm {
        ArgForm { text: self.text@, addr: self.addr }
    }
}

impl View for CliOptions {
    type V = OptionsForm;

    open spec fn view(&self) -> OptionsForm {
        OptionsForm {
            bind_addr: self.bind_addr,
            peer_addr: self.peer_addr,
            enabled: self.autotune.enabled,
            gain: text::texts(self.autotune.gain@),
            max_window: self.autotune.max_window,
            peer_label: text::text_in(self.peer_label),
            peer_key: text::text_in(self.peer_key),
            to_load: text::text_in(self.profile_actions.to_load),
            to_save: text::text_in(self.profile_actions.to_save),
            to_delete: text::text_in(self.profile_actions.to_delete),
            list_all: self.profile_actions.list_all,
        }
    }
}

/// The arguments of a list.
pub open spec fn arg_forms(v: Seq<CliArg>) -> Seq<ArgForm> {
    v.map_values(|a: CliArg| a@)
}

/// Options before any argument.
pub open spec fn no_options(bind_addr: SocketAddr) -> OptionsForm {
    OptionsForm {
        bind_addr,
        peer_addr: None,
        enabled: None,
        gain: Seq::empty(),
        max_window: None,
        peer_label: None,
        peer_key: None,
        to_load: None,
        to_save: None,
        to_delete: None,
        list_all: false,
    }
}

/// Whether an option takes the next argument as its value.
pub open spec fn takes_value(t: Seq<char>) -> bool {
    ||| t == "--bind"@
    ||| t == "--peer"@
    ||| t == "--autotune-inflight"@
    ||| t == "--autotune-gain"@
    ||| t == "--autotune-max-window"@
    ||| t == "--profile"@
    ||| t == "--profile-save"@
    ||| t == "--profile-delete"@
    ||| t == "--profile-alias"@
    ||| t == "--peer-key"@
}

/// A text after an option that holds one: its value, or without one what the rule for a
/// missing value says.
pub open spec fn text_after(
    before: Option<Seq<char>>,
    value: Option<ArgForm>,
    missing: MissingValue,
) -> Option<Seq<char>> {
    match value {
        Some(v) => Some(v.text),
        None => match missing {
            MissingValue::Clears => None,
            MissingValue::Keeps => before,
        },
    }
}

/// Options after one option with its value.
pub open spec fn option_applied(
    o: OptionsForm,
    t: Seq<char>,
    value: Option<ArgForm>,
    missing: MissingValue,
) -> OptionsForm {
    if t == "--bind"@ {
        match value {
            Some(ArgForm { text: _, addr: Some(addr) }) => OptionsForm { bind_addr: addr, ..o },
            _ => o,
        }
    } else if t == "--peer"@ {
        match value {
            Some(ArgForm { text: _, addr: Some(addr) }) => OptionsForm {
                peer_addr: Some(addr),
                ..o
            },
            _ => o,
        }
    } else if t == "--autotune-inflight"@ {
        match value {
            Some(v) => OptionsForm {
                enabled: Some(v.text != "off"@ && v.text != "0"@),
                ..o
            },
            None => o,
        }
    } else if t == "--autotune-gain"@ {
        match value {
            Some(v) => OptionsForm { gain: o.gain.push(v.text), ..o },
            None => o,
        }
    } else if t == "--autotune-max-window"@ {
        match value {
            Some(v) => OptionsForm {
                max_window: if text::number_in(v.text) is Some {
                    text::number_in(v.text)
                } else {
                    o.max_window
                },
                ..o
            },
            None => o,
        }
    } else if t == "--profile"@ {
        OptionsForm { to_load: text_after(o.to_load, value, missing), ..o }
    } else if t == "--profile-save"@ {
        OptionsForm { to_save: text_after(o.to_save, value, missing), ..o }
    } else if t == "--profile-delete"@ {
        OptionsForm { to_delete: text_after(o.to_delete, value, missing), ..o }
    } else if t == "--profile-alias"@ {
        OptionsForm { peer_label: text_after(o.peer_label, value, missing), ..o }
    } else if t == "--peer-key"@ {
        OptionsForm { peer_key: text_after(o.peer_key, value, missing), ..o }
    } else if t == "--list-profiles"@ {
        OptionsForm { list_all: true, ..o }
    } else {
        o
    }
}

/// Options after all arguments; what is no option is passed over.
pub open spec fn options_after(
    o: OptionsForm,
    args: Seq<ArgForm>,
    missing: MissingValue,
) -> OptionsForm
    decreases args.len(),
{
    if args.len() == 0 {
        o
    } else if !takes_value(args[0].text) {
        options_after(option_applied(o, args[0].text, None, missing), args.skip(1), missing)
    } else if args.len() == 1 {
        option_applied(o, args[0].text, None, missing)
    } else {
        options_after(
            option_applied(o, args[0].text, Some(args[1]), missing),
            args.skip(2),
            missing,
        )
    }
}

fn has_value(t: &str) -> (r: bool)
    ensures
        r == takes_value(t@),
{
    text::same_text(t, "--bind") || text::same_text(t, "--peer") || text::same_text(
        t,
        "--autotune-inflight",
    ) || text::same_text(t, "--autotune-gain") || text::same_text(t, "--autotune-max-window")
        || text::same_text(t, "--profile") || text::same_text(t, "--profile-save")
        || text::same_text(t, "--profile-delete") || text::same_text(t, "--profile-alias")
        || text::same_text(t, "--peer-key")
}

fn set_text(field: &mut Option<String>, value: Option<&CliArg>, missing: MissingValue)
    ensures
        text::text_in(*final(field)) == text_after(
            text::text_in(*old(field)),
            match value {
                Some(v) => Some(v@),
                None => None,
            },
            missing,
        ),
{
    match value {
        Some(v) => {
            *field = Some(v.text.as_str().to_owned());
        },
        None => {
            if missing == MissingValue::Clears {
                *field = None;
            }
        },
    }
}

/// Takes one option with its value.
pub fn handle_argument(
    options: &mut CliOptions,
    arg: &str,
    value: Option<&CliArg>,
    missing: MissingValue,
)
    ensures
        final(options)@ == option_applied(
            old(options)@,
            arg@,
            match value {
                Some(v) => Some(v@),
                None => None,
            },
            missing,
        ),
{
    if text::same_text(arg, "--bind") {
        if let Some(v) = value {
            if let Some(addr) = v.addr {
                options.bind_addr = addr;
            }
        }
    } else if text::same_text(arg, "--peer") {
        if let Some(v) = value {
            if let Some(addr) = v.addr {
                options.peer_addr = Some(addr);
            }
        }
    } else if text::same_text(arg, "--autotune-inflight") {
        if let Some(v) = value {
            options.autotune.enabled = Some(
                !text::same_text(v.text.as_str(), "off") && !text::same_text(
                    v.text.as_str(),
                    "0",
                ),
            );
        }
    } else if text::same_text(arg, "--autotune-gain") {
        if let Some(v) = value {
            let ghost before = options.autotune.gain@;
            options.autotune.gain.push(v.text.as_str().to_owned());
            assert(text::texts(options.autotune.gain@) =~= text::texts(before).push(v@.text));
        }
    } else if text::same_text(arg, "--autotune-max-window") {
        if let Some(v) = value {
            if let Some(window) = text::parse_number(v.text.as_str()) {
                options.autotune.max_window = Some(window);
            }
        }
    } else if text::same_text(arg, "--profile") {
        set_text(&mut options.profile_actions.to_load, value, missing);
    } else if text::same_text(arg, "--profile-save") {
        set_text(&mut options.profile_actions.to_save, value, missing);
    } else if text::same_text(arg, "--profile-delete") {
        set_text(&mut options.profile_actions.to_delete, value, missing);
    } else if text::same_text(arg, "--profile-alias") {
        set_text(&mut options.peer_label, value, missing);
    } else if text::same_text(arg, "--peer-key") {
        set_text(&mut options.peer_key, value, missing);
    } else if text::same_text(arg, "--list-profiles") {
        options.profile_actions.list_all = true;
    }
}

impl CliOptions {
    /// Options before any argument.
    pub fn new(bind_addr: SocketAddr) -> (r: CliOptions)
        ensures
            r@ == no_options(bind_addr),
    {
        let r = CliOptions {
            bind_addr,
            peer_addr: None,
            autotune: AutotuneChoice { enabled: None, gain: Vec::new(), max_window: None },
            peer_label: None,
            peer_key: None,
            profile_actions: ProfileActions {
                to_load: None,
                to_save: None,
                to_delete: None,
                list_all: false,
            },
        };
        assert(r@.gain =~= Seq::<Seq<char>>::empty());
        r
    }
}

/// Reads the arguments behind the program's name.
pub fn parse_args(bind_addr: SocketAddr, args: &Vec<CliArg>, missing: MissingValue) -> (r:
    CliOptions)
    ensures
        r@ == options_after(no_options(bind_addr), arg_forms(args@), missing),
{
    let mut options = CliOptions::new(bind_addr);
    let ghost all = arg_forms(args@);
    let ghost start = no_options(bind_addr);
    let mut i: usize = 0;
    assert(all.skip(0) =~= all);
    while i < args.len()
        invariant
            i <= args@.len(),
            all == arg_forms(args@),
            options_after(start, all, missing) == options_after(
                options@,
                all.skip(i as int),
                missing,
            ),
        decreases args@.len() - i,
    {
        let arg = args[i].text.as_str();
        assert(all.skip(i as int)[0] == args@[i as int]@);
        if !has_value(arg) {
            handle_argument(&mut options, arg, None, missing);
            assert(all.skip(i as int).skip(1) =~= all.skip(i + 1));
            i += 1;
        } else if i + 1 < args.len() {
            assert(all.skip(i as int)[1] == args@[i + 1]@);
            handle_argument(&mut options, arg, Some(&args[i + 1]), missing);
            assert(all.skip(i as int).skip(2) =~= all.skip(i + 2));
            i += 2;
        } else {
            handle_argument(&mut options, arg, None, missing);
            assert(all.skip(i + 1) =~= Seq::<ArgForm>::empty());
            i += 1;
        }
    }
    assert(all.skip(i as int) =~= Seq::<ArgForm>::empty());
    options
}

// ---------------------------------------------------------------- saved connections

/// A write of the saved connections, and what to print after it: on success a line, on
/// failure a line that the error completes.
#[derive(Debug)]
pub struct SaveRequest {
    pub success: String,
    pub failure: String,
}

/// What is to be done about saved connections before the program starts: lines for the
/// output, lines for the error output, a write, and an exit with a status.
#[derive(Debug)]
pub struct ProfileOutcome {
    pub output: Vec<String>,
    pub errors: Vec<String>,
    pub save: Option<SaveRequest>,
    pub exit: Option<i32>,
}

/// An outcome as a value of mathematics.
pub struct OutcomeForm {
    pub output: Seq<Seq<char>>,
    pub errors: Seq<Seq<char>>,
    pub save: Option<(Seq<char>, Seq<char>)>,
    pub exit: Option<i32>,
}

impl View for ProfileOutcome {
    type V = OutcomeForm;

    open spec fn view(&self) -> OutcomeForm {
        OutcomeForm {
            output: text::texts(self.output@),
            errors: text::texts(self.errors@),
            save: match self.save {
                Some(s) => Some((s.success@, s.failure@)),
                None => None,
            },
            exit: self.exit,
        }
    }
}

/// Options after the requested profile was looked up: its peer replaces the given one, its
/// alias or name and its key fill what was not given.
pub open spec fn profile_applied(o: OptionsForm, found: Option<ProfileForm>) -> OptionsForm {
    match found {
        Some(p) => OptionsForm {
            peer_addr: Some(p.peer),
            peer_label: if o.peer_label is Some {
                o.peer_label
            } else if p.alias is Some {
                p.alias
            } else {
                Some(p.name)
            },
            peer_key: if o.peer_key is Some {
                o.peer_key
            } else {
                p.key
            },
            ..o
        },
        None => o,
    }
}

/// Options after the profile that they ask for was looked up among `s`.
pub open spec fn profile_loaded(o: OptionsForm, s: Seq<ProfileForm>) -> OptionsForm {
    match o.to_load {
        Some(name) => profile_applied(o, profiles::first_named(s, name)),
        None => o,
    }
}

/// The line for a profile that does not exist.
pub open spec fn not_found_line(name: Seq<char>) -> Seq<char> {
    "perfil nao encontrado: "@ + name
}

/// The complaint about the profile that the options ask for.
pub open spec fn load_errors(o: OptionsForm, s: Seq<ProfileForm>) -> Seq<Seq<char>> {
    match o.to_load {
        Some(name) => if profiles::first_named(s, name) is Some {
            Seq::empty()
        } else {
            seq![not_found_line(name)]
        },
        None => Seq::empty(),
    }
}

/// The profile that the options ask to save.
pub open spec fn profile_to_save(o: OptionsForm) -> Option<ProfileForm> {
    if o.to_save is Some && o.peer_addr is Some {
        Some(
            ProfileForm {
                name: o.to_save->0,
                peer: o.peer_addr->0,
                alias: o.peer_label,
                key: o.peer_key,
            },
        )
    } else {
        None
    }
}

/// The words of a failed write after a removal.
pub open spec fn removal_failure(name: Seq<char>, missing: MissingValue) -> Seq<char> {
    match missing {
        MissingValue::Clears => "erro ao salvar perfil "@ + name + ": "@,
        MissingValue::Keeps => "erro ao salvar perfis: "@,
    }
}

/// What the options ask of the saved connections `s`: a listing or a removal ends the
/// program; else a profile is loaded, and then one is saved.
pub open spec fn profile_outcome(
    o: OptionsForm,
    s: Seq<ProfileForm>,
    missing: MissingValue,
) -> OutcomeForm {
    let none = Seq::<Seq<char>>::empty();
    if o.list_all {
        OutcomeForm { output: profiles::listing(s), errors: none, save: None, exit: Some(0) }
    } else if o.to_delete is Some {
        let name = o.to_delete->0;
        if profiles::first_named(s, name) is Some {
            OutcomeForm {
                output: none,
                errors: none,
                save: Some(("perfil removido: "@ + name, removal_failure(name, missing))),
                exit: Some(0),
            }
        } else {
            OutcomeForm {
                output: none,
                errors: seq![not_found_line(name)],
                save: None,
                exit: Some(0),
            }
        }
    } else {
        let loaded = profile_loaded(o, s);
        if o.to_save is None {
            OutcomeForm { output: none, errors: load_errors(o, s), save: None, exit: None }
        } else if loaded.peer_addr is Some {
            let name = o.to_save->0;
            OutcomeForm {
                output: none,
                errors: load_errors(o, s),
                save: Some(
                    (
                        "perfil salvo: "@ + name + " -> "@ + loaded.peer_addr->0.text_spec(),
                        "erro ao salvar perfil "@ + name + ": "@,
                    ),
                ),
                exit: None,
            }
        } else {
            OutcomeForm {
                output: none,
                errors: load_errors(o, s).push(
                    "--profile-save requer um --peer ou --profile"@,
                ),
                save: None,
                exit: Some(2),
            }
        }
    }
}

/// The options after the saved connections were consulted.
pub open spec fn options_consulted(o: OptionsForm, s: Seq<ProfileForm>) -> OptionsForm {
    if o.list_all || o.to_delete is Some {
        o
    } else {
        profile_loaded(o, s)
    }
}

/// Whether `now` is what the options make of the saved connections `before`.
pub open spec fn store_consulted(
    o: OptionsForm,
    before: Seq<ProfileForm>,
    now: Seq<ProfileForm>,
) -> bool {
    if o.list_all {
        now == before
    } else if o.to_delete is Some {
        now == profiles::without(before, o.to_delete->0)
    } else {
        match profile_to_save(profile_loaded(o, before)) {
            Some(profile) => profiles::upserted(before, profile, now),
            None => now == before,
        }
    }
}

fn apply_profile(profile: ConnectionProfile, options: &mut CliOptions)
    ensures
        final(options)@ == profile_applied(old(options)@, Some(profile@)),
{
    options.peer_addr = Some(profile.peer);
    if options.peer_label.is_none() {
        options.peer_label = if profile.alias.is_some() {
            profile.alias
        } else {
            Some(profile.name)
        };
    }
    if options.peer_key.is_none() {
        options.peer_key = profile.key;
    }
}

fn list_outcome(store: &ProfileStore) -> (r: ProfileOutcome)
    ensures
        r@ == (OutcomeForm {
            output: profiles::listing(store.listed()),
            errors: Seq::empty(),
            save: None,
            exit: Some(0i32),
        }),
{
    let r = ProfileOutcome {
        output: profiles::profile_lines(store),
        errors: Vec::new(),
        save: None,
        exit: Some(0),
    };
    assert(r@.errors =~= Seq::<Seq<char>>::empty());
    r
}

fn delete_outcome(store: &mut ProfileStore, name: &str, missing: MissingValue) -> (r:
    ProfileOutcome)
    ensures
        final(store).path == old(store).path,
        final(store).listed() == profiles::without(old(store).listed(), name@),
        r@ == (if profiles::first_named(old(store).listed(), name@) is Some {
            OutcomeForm {
                output: Seq::empty(),
                errors: Seq::empty(),
                save: Some(("perfil removido: "@ + name@, removal_failure(name@, missing))),
                exit: Some(0i32),
            }
        } else {
            OutcomeForm {
                output: Seq::empty(),
                errors: seq![not_found_line(name@)],
                save: None,
                exit: Some(0i32),
            }
        }),
{
    let removed = store.remove(name);
    let mut r = ProfileOutcome {
        output: Vec::new(),
        errors: Vec::new(),
        save: None,
        exit: Some(0),
    };
    if removed {
        let failure = match missing {
            MissingValue::Clears => {
                let mut line = "erro ao salvar perfil ".to_owned();
                line.append(name);
                line.append(": ");
                line
            },
            MissingValue::Keeps => "erro ao salvar perfis: ".to_owned(),
        };
        r.save = Some(
            SaveRequest { success: text::joined("perfil removido: ", name), failure },
        );
    } else {
        r.errors.push(text::joined("perfil nao encontrado: ", name));
        assert(r@.errors =~= seq![not_found_line(name@)]);
    }
    assert(r@.output =~= Seq::<Seq<char>>::empty());
    assert(removed ==> r@.errors =~= Seq::<Seq<char>>::empty());
    r
}

/// Does what the options ask of the saved connections.
pub fn process_profile_requests(
    store: &mut ProfileStore,
    options: &mut CliOptions,
    missing: MissingValue,
) -> (r: ProfileOutcome)
    ensures
        final(store).path == old(store).path,
        r@ == profile_outcome(old(options)@, old(store).listed(), missing),
        final(options)@ == options_consulted(old(options)@, old(store).listed()),
        store_consulted(old(options)@, old(store).listed(), final(store).listed()),
{
    let ghost o = options@;
    let ghost s = store.listed();
    if options.profile_actions.list_all {
        return list_outcome(store);
    }
    if let Some(name) = &options.profile_actions.to_delete {
        return delete_outcome(store, name.as_str(), missing);
    }
    let mut r = ProfileOutcome { output: Vec::new(), errors: Vec::new(), save: None, exit: None };
    assert(r@.output =~= Seq::<Seq<char>>::empty());
    assert(r@.errors =~= Seq::<Seq<char>>::empty());
    let to_load = text::copied(&options.profile_actions.to_load);
    if let Some(name) = to_load {
        match store.find(name.as_str()) {
            Some(profile) => apply_profile(profile, options),
            None => {
                r.errors.push(text::joined("perfil nao encontrado: ", name.as_str()));
            },
        }
    }
    assert(r@.errors =~= load_errors(o, s));
    assert(options@ == profile_loaded(o, s));
    let ghost errors_before = r.errors@;
    if let Some(name) = &options.profile_actions.to_save {
        match options.peer_addr {
            Some(peer) => {
                let profile = ConnectionProfile {
                    name: name.as_str().to_owned(),
                    peer,
                    alias: text::copied(&options.peer_label),
                    key: text::copied(&options.peer_key),
                };
                store.upsert(profile);
                let mut success = text::joined("perfil salvo: ", name.as_str());
                success.append(" -> ");
                success.append(peer.text().as_str());
                let mut failure = text::joined("erro ao salvar perfil ", name.as_str());
                failure.append(": ");
                r.save = Some(SaveRequest { success, failure });
            },
            None => {
                r.errors.push("--profile-save requer um --peer ou --profile".to_owned());
                assert(text::texts(r.errors@) =~= text::texts(errors_before).push(
                    "--profile-save requer um --peer ou --profile"@,
                ));
                r.exit = Some(2);
            },
        }
    }
    r
}

/// A connection that was saved under a name is the one that the name loads later: it has the
/// same peer, the label that it was saved with or else its name, and the same key.
pub proof fn law_saved_connection_is_loaded(
    saving: OptionsForm,
    before: Seq<ProfileForm>,
    now: Seq<ProfileForm>,
    loading: OptionsForm,
    missing: MissingValue,
)
    requires
        store_consulted(saving, before, now),
        profile_outcome(saving, before, missing).exit is None,
        saving.to_save is Some,
        loading.to_load == saving.to_save,
        !loading.list_all,
        loading.to_delete is None,
        loading.peer_label is None,
        loading.peer_key is None,
    ensures
        ({
            let used = options_consulted(saving, before);
            let later = options_consulted(loading, now);
            &&& later.peer_addr == used.peer_addr
            &&& later.peer_key == used.peer_key
            &&& later.peer_label == if used.peer_label is Some {
                used.peer_label
            } else {
                saving.to_save
            }
            &&& load_errors(loading, now) == Seq::<Seq<char>>::empty()
        }),
{
    let name = saving.to_save->0;
    let profile = profile_to_save(profile_loaded(saving, before))->0;
    profiles::law_saved_profile_is_found(before, profile, now, name.push('x'));
}

impl CliOptions {
    /// What the program starts with.
    pub fn into_args(self) -> (r: CliArgs)
        ensures
            r.bind_addr == self.bind_addr,
            r.peer_addr == self.peer_addr,
            r.autotune == self.autotune,
            r.peer_label == self.peer_label,
    {
        CliArgs {
            bind_addr: self.bind_addr,
            peer_addr: self.peer_addr,
            autotune: self.autotune,
            peer_label: self.peer_label,
        }
    }
}

// ---------------------------------------------------------------- laws

/// An IPv6 address is reachable from everywhere unless it is that of the own machine or of none, one
/// for many receivers, of the link, or of a private network.
pub proof fn law_global_addresses(a: Ipv6Addr)
    ensures
        a.s0 / 256 == 0xff ==> !global_ipv6(a),
        a.s0 / 64 == 0x3fa ==> !global_ipv6(a),
        a.s0 / 512 == 0x7e ==> !global_ipv6(a),
        a.s0 / 256 != 0xff && a.s0 / 64 != 0x3fa && a.s0 / 512 != 0x7e && a.s0 != 0
            ==> global_ipv6(a),
        a.s0 == 0 && a.s1 == 0 && a.s2 == 0 && a.s3 == 0 && a.s4 == 0 && a.s5 == 0 && a.s6 == 0
            && a.s7 <= 1 ==> !global_ipv6(a),
        a.s0 == 0 && (a.s1 != 0 || a.s2 != 0 || a.s3 != 0 || a.s4 != 0 || a.s5 != 0 || a.s6 != 0
            || a.s7 > 1) ==> global_ipv6(a),
{
}

/// Any address of the later family is listened on where the machine has one that is reachable from
/// everywhere, else any of the earlier one, at any port.
pub proof fn law_reachable_family_is_listened_on(interfaces: Seq<IpAddr>, i: int, ip: Ipv6Addr)
    ensures
        0 <= i < interfaces.len() && interfaces[i] == IpAddr::V6(ip)
            && global_ipv6(ip) ==> any_addr(
            any_global_ipv6(interfaces),
        ) == SocketAddr::V6(
            SocketAddrV6 {
                ip: Ipv6Addr { s0: 0, s1: 0, s2: 0, s3: 0, s4: 0, s5: 0, s6: 0, s7: 0 },
                port: 0,
                flowinfo: 0,
                scope_id: 0,
            },
        ),
        (forall|k: int|
            0 <= k < interfaces.len() && (#[trigger] interfaces[k]) is V6 ==> !global_ipv6(
                interfaces[k]->V6_0,
            )) ==> any_addr(any_global_ipv6(interfaces)) == SocketAddr::V4(
            SocketAddrV4 { ip: Ipv4Addr { a: 0, b: 0, c: 0, d: 0 }, port: 0 },
        ),
{
}

proof fn lemma_option_names_differ()
    ensures
        "--bind"@.len() == 6 && "--peer"@.len() == 6 && "--autotune-inflight"@.len() == 19
            && "--autotune-gain"@.len() == 15 && "--autotune-max-window"@.len() == 21
            && "--profile"@.len() == 9 && "--profile-save"@.len() == 14
            && "--profile-delete"@.len() == 16 && "--profile-alias"@.len() == 15
            && "--peer-key"@.len() == 10 && "--list-profiles"@.len() == 15,
        "--bind"@ != "--peer"@,
        "--autotune-gain"@ != "--profile-alias"@,
        "--autotune-gain"@ != "--list-profiles"@,
        "--profile-alias"@ != "--list-profiles"@,
{
    reveal_strlit("--bind");
    reveal_strlit("--peer");
    reveal_strlit("--autotune-inflight");
    reveal_strlit("--autotune-gain");
    reveal_strlit("--autotune-max-window");
    reveal_strlit("--profile");
    reveal_strlit("--profile-save");
    reveal_strlit("--profile-delete");
    reveal_strlit("--profile-alias");
    reveal_strlit("--peer-key");
    reveal_strlit("--list-profiles");
    assert("--bind"@[2] == 'b' && "--peer"@[2] == 'p');
    assert("--autotune-gain"@[2] == 'a' && "--profile-alias"@[2] == 'p' && "--list-profiles"@[2]
        == 'l');
}

/// Each option sets what it is named after and nothing else: an address only where its value is one,
/// a window only where its value is a number, a gain beside those before it, and the tuning off only
/// by `off` and `0`.
pub proof fn law_options_set_what_they_name(
    o: OptionsForm,
    v: ArgForm,
    a: SocketAddr,
    missing: MissingValue,
)
    ensures
        v.addr == Some(a) ==> option_applied(o, "--bind"@, Some(v), missing) == (OptionsForm {
            bind_addr: a,
            ..o
        }),
        v.addr == Some(a) ==> option_applied(o, "--peer"@, Some(v), missing) == (OptionsForm {
            peer_addr: Some(a),
            ..o
        }),
        v.addr is None ==> option_applied(o, "--bind"@, Some(v), missing) == o && option_applied(
            o,
            "--peer"@,
            Some(v),
            missing,
        ) == o,
        v.text == "off"@ || v.text == "0"@ ==> option_applied(
            o,
            "--autotune-inflight"@,
            Some(v),
            missing,
        ) == (OptionsForm { enabled: Some(false), ..o }),
        v.text != "off"@ && v.text != "0"@ ==> option_applied(
            o,
            "--autotune-inflight"@,
            Some(v),
            missing,
        ) == (OptionsForm { enabled: Some(true), ..o }),
        option_applied(o, "--autotune-gain"@, Some(v), missing) == (OptionsForm {
            gain: o.gain.push(v.text),
            ..o
        }),
        text::number_in(v.text) is Some ==> option_applied(
            o,
            "--autotune-max-window"@,
            Some(v),
            missing,
        ) == (OptionsForm { max_window: text::number_in(v.text), ..o }),
        text::number_in(v.text) is None ==> option_applied(
            o,
            "--autotune-max-window"@,
            Some(v),
            missing,
        ) == o,
        option_applied(o, "--profile"@, Some(v), missing) == (OptionsForm {
            to_load: Some(v.text),
            ..o
        }),
        option_applied(o, "--profile-save"@, Some(v), missing) == (OptionsForm {
            to_save: Some(v.text),
            ..o
        }),
        option_applied(o, "--profile-delete"@, Some(v), missing) == (OptionsForm {
            to_delete: Some(v.text),
            ..o
        }),
        option_applied(o, "--profile-alias"@, Some(v), missing) == (OptionsForm {
            peer_label: Some(v.text),
            ..o
        }),
        option_applied(o, "--peer-key"@, Some(v), missing) == (OptionsForm {
            peer_key: Some(v.text),
            ..o
        }),
{
    lemma_option_names_differ();
}

/// An option without its value sets nothing; where it then takes back what was given before, it does
/// so for the texts alone. Only the listing needs no value, and what is no option changes nothing.
pub proof fn law_options_without_values(o: OptionsForm, t: Seq<char>)
    ensures
        ({
            let keeps = |t: Seq<char>| option_applied(o, t, None, MissingValue::Keeps);
            let clears = |t: Seq<char>| option_applied(o, t, None, MissingValue::Clears);
            &&& t != "--list-profiles"@ ==> keeps(t) == o
            &&& keeps("--list-profiles"@) == (OptionsForm { list_all: true, ..o })
            &&& clears("--list-profiles"@) == (OptionsForm { list_all: true, ..o })
            &&& clears("--profile"@) == (OptionsForm { to_load: None, ..o })
            &&& clears("--profile-save"@) == (OptionsForm { to_save: None, ..o })
            &&& clears("--profile-delete"@) == (OptionsForm { to_delete: None, ..o })
            &&& clears("--profile-alias"@) == (OptionsForm { peer_label: None, ..o })
            &&& clears("--peer-key"@) == (OptionsForm { peer_key: None, ..o })
            &&& t != "--list-profiles"@ && t != "--profile"@ && t != "--profile-save"@ && t
                != "--profile-delete"@ && t != "--profile-alias"@ && t != "--peer-key"@ ==> clears(
                t,
            ) == o
        }),
{
    lemma_option_names_differ();
}

/// The arguments are read from the first on: each of ten options takes the one behind it as its value,
/// whatever that is, and any other argument stands alone.
pub proof fn law_arguments_are_read_in_order(
    o: OptionsForm,
    a: ArgForm,
    v: ArgForm,
    rest: Seq<ArgForm>,
    missing: MissingValue,
)
    ensures
        ({
            let valued = a.text == "--bind"@ || a.text == "--peer"@ || a.text
                == "--autotune-inflight"@ || a.text == "--autotune-gain"@ || a.text
                == "--autotune-max-window"@ || a.text == "--profile"@ || a.text
                == "--profile-save"@ || a.text == "--profile-delete"@ || a.text
                == "--profile-alias"@ || a.text == "--peer-key"@;
            &&& options_after(o, Seq::empty(), missing) == o
            &&& valued ==> options_after(o, seq![a, v] + rest, missing) == options_after(
                option_applied(o, a.text, Some(v), missing),
                rest,
                missing,
            )
            &&& valued ==> options_after(o, seq![a], missing) == option_applied(
                o,
                a.text,
                None,
                missing,
            )
            &&& !valued ==> options_after(o, seq![a] + rest, missing) == options_after(
                option_applied(o, a.text, None, missing),
                rest,
                missing,
            )
        }),
{
    let two = seq![a, v] + rest;
    let one = seq![a] + rest;
    assert(two[0] == a && two[1] == v && two.skip(2) =~= rest);
    assert(one[0] == a && one.skip(1) =~= rest);
    assert(seq![a][0] == a);
}

/// Without arguments nothing but the address to listen on is chosen.
pub proof fn law_no_options_are_set(bind_addr: SocketAddr)
    ensures
        ({
            let o = no_options(bind_addr);
            &&& o.bind_addr == bind_addr
            &&& o.peer_addr is None && o.enabled is None && o.gain.len() == 0
            &&& o.max_window is None && o.peer_label is None && o.peer_key is None
            &&& o.to_load is None && o.to_save is None && o.to_delete is None && !o.list_all
        }),
{
}

/// A saved connection gives its address in any case, its alias, or else its name, where no label was
/// given, and its key where no key was given; nothing else changes.
pub proof fn law_saved_connection_fills_what_is_not_given(
    o: OptionsForm,
    s: Seq<ProfileForm>,
    name: Seq<char>,
)
    ensures
        o.to_load is None ==> profile_loaded(o, s) == o && load_errors(o, s).len() == 0,
        o.to_load == Some(name) && profiles::first_named(s, name) is None ==> profile_loaded(o, s)
            == o && load_errors(o, s) == seq!["perfil nao encontrado: "@ + name],
        o.to_load == Some(name) && profiles::first_named(s, name) is Some ==> {
            let p = profiles::first_named(s, name)->0;
            let r = profile_loaded(o, s);
            &&& load_errors(o, s).len() == 0
            &&& r.peer_addr == Some(p.peer)
            &&& o.peer_label is Some ==> r.peer_label == o.peer_label
            &&& o.peer_label is None && p.alias is Some ==> r.peer_label == p.alias
            &&& o.peer_label is None && p.alias is None ==> r.peer_label == Some(p.name)
            &&& o.peer_key is Some ==> r.peer_key == o.peer_key
            &&& o.peer_key is None ==> r.peer_key == p.key
            &&& r == (OptionsForm {
                peer_addr: r.peer_addr,
                peer_label: r.peer_label,
                peer_key: r.peer_key,
                ..o
            })
        },
{
}

/// Listing goes before removing, and removing before loading and saving; the first two end the
/// program, and leave the options as they are. Listing changes no profile, removing only those of the
/// name.
pub proof fn law_listing_and_removing_end_the_program(
    o: OptionsForm,
    before: Seq<ProfileForm>,
    now: Seq<ProfileForm>,
    name: Seq<char>,
    missing: MissingValue,
)
    ensures
        ({
            let r = profile_outcome(o, before, missing);
            let found = profiles::first_named(before, name) is Some;
            let removing = !o.list_all && o.to_delete == Some(name);
            &&& o.list_all ==> r.output == profiles::listing(before) && r.errors.len() == 0
                && r.save is None && r.exit == Some(0i32) && options_consulted(o, before) == o && (
            store_consulted(o, before, now) <==> now == before)
            &&& removing && found ==> r.output.len() == 0 && r.errors.len() == 0 && r.exit == Some(
                0i32,
            )
            &&& removing && found && missing is Clears ==> r.save == Some(
                ("perfil removido: "@ + name, "erro ao salvar perfil "@ + name + ": "@),
            )
            &&& removing && found && missing is Keeps ==> r.save == Some(
                ("perfil removido: "@ + name, "erro ao salvar perfis: "@),
            )
            &&& removing && !found ==> r.output.len() == 0 && r.errors == seq![
                "perfil nao encontrado: "@ + name,
            ] && r.save is None && r.exit == Some(0i32)
            &&& removing ==> options_consulted(o, before) == o && (store_consulted(o, before, now)
                <==> now == before.filter(|p: ProfileForm| p.name != name))
        }),
{
    profiles::law_removing_takes_only_the_name(before, name);
}

/// A connection is saved under the name given, with the address, label and key that are used; without
/// an address none is saved, and the program ends with an error. Where none is to be saved, the
/// program goes on.
pub proof fn law_used_connection_is_saved(
    o: OptionsForm,
    before: Seq<ProfileForm>,
    now: Seq<ProfileForm>,
    name: Seq<char>,
    missing: MissingValue,
)
    requires
        !o.list_all,
        o.to_delete is None,
    ensures
        ({
            let r = profile_outcome(o, before, missing);
            let used = options_consulted(o, before);
            &&& used == profile_loaded(o, before)
            &&& r.output.len() == 0
            &&& o.to_save is None ==> r.errors == load_errors(o, before) && r.save is None && r.exit
                is None && (store_consulted(o, before, now) <==> now == before)
            &&& o.to_save == Some(name) && used.peer_addr is Some ==> r.errors == load_errors(
                o,
                before,
            ) && r.exit is None && r.save == Some(
                (
                    "perfil salvo: "@ + name + " -> "@ + used.peer_addr->0.text_spec(),
                    "erro ao salvar perfil "@ + name + ": "@,
                ),
            ) && (store_consulted(o, before, now) <==> profiles::upserted(
                before,
                ProfileForm {
                    name,
                    peer: used.peer_addr->0,
                    alias: used.peer_label,
                    key: used.peer_key,
                },
                now,
            ))
            &&& o.to_save == Some(name) && used.peer_addr is None ==> r.errors == load_errors(
                o,
                before,
            ).push("--profile-save requer um --peer ou --profile"@) && r.save is None && r.exit
                == Some(2i32) && (store_consulted(o, before, now) <==> now == before)
        }),
{
}

} // verus!
