//! The commands of the operator: their registry, what each decides, and how a
//! typed line reaches one of them.
//!
//! A command decides; it neither prints nor changes anything. It answers with
//! a [`Plan`]: the steps to carry out, in order, and what to show once they
//! are carried out.

use vstd::prelude::*;
use crate::addr::Ipv4Addr;
use crate::cidr::{
    cidr_text, index_of_text, is_cidr_text, lemma_cidr_injective, parse_cidr, parse_index, Place,
};
use crate::net::{
    add_steps, del_steps, gateway_steps, is_first_with_index, is_listing, DefaultRoute, Effect,
    Interface, Net, NetError,
};
use crate::text::{chars_of, decimal, push_char, push_decimal, same_text, string_of};

verus! {

/// Why a command was not carried out.
#[derive(Clone, Copy, Debug, PartialEq, Eq, Structural)]
pub enum CommandError {
    /// The add command was given no address.
    NoAddress,
    /// The text is no address with a prefix length.
    InvalidAddress,
    /// The delete command was given no place.
    NoIndex,
    /// The text is no place in a list.
    InvalidIndex,
    /// The place is zero; the first address has the place one.
    ZeroIndex,
    /// The list that was shown last has no address at that place.
    IndexOutOfRange,
    /// The list command was given an argument.
    UnexpectedArgument,
    /// The text is no address.
    InvalidGateway,
    /// No command has this key.
    UnknownCommand(char),
    /// A command was described without a key.
    MissingKey,
    /// Two commands were registered under this key.
    DuplicateKey(char),
    /// The network component refused.
    Net(NetError),
}

impl CommandError {
    /// What the error says to the operator.
    pub open spec fn message_text(self) -> Seq<char> {
        match self {
            CommandError::NoAddress => "no address provided"@,
            CommandError::InvalidAddress => "invalid address format, try ip_addr/mask"@,
            CommandError::NoIndex => "no address index provided"@,
            CommandError::InvalidIndex => "invalid address index"@,
            CommandError::ZeroIndex => "idx is 0"@,
            CommandError::IndexOutOfRange => "cannot get address by id"@,
            CommandError::UnexpectedArgument => "list command shouldn't have any arguments"@,
            CommandError::InvalidGateway => "invalid IPv4 address syntax"@,
            CommandError::UnknownCommand(key) => "unknown command: "@.push(key),
            CommandError::MissingKey => "a command requires a key"@,
            CommandError::DuplicateKey(key) => "duplicate command key: "@.push(key),
            CommandError::Net(e) => e.message_text(),
        }
    }

    /// What the error says to the operator.
    pub fn message(&self) -> (r: String)
        ensures
            r@ == self.message_text(),
    {
        match self {
            CommandError::NoAddress => String::from_str("no address provided"),
            CommandError::InvalidAddress => String::from_str(
                "invalid address format, try ip_addr/mask",
            ),
            CommandError::NoIndex => String::from_str("no address index provided"),
            CommandError::InvalidIndex => String::from_str("invalid address index"),
            CommandError::ZeroIndex => String::from_str("idx is 0"),
            CommandError::IndexOutOfRange => String::from_str("cannot get address by id"),
            CommandError::UnexpectedArgument => String::from_str(
                "list command shouldn't have any arguments",
            ),
            CommandError::InvalidGateway => String::from_str("invalid IPv4 address syntax"),
            CommandError::UnknownCommand(key) => {
                let mut r = String::from_str("unknown command: ");
                push_char(&mut r, *key);
                r
            },
            CommandError::MissingKey => String::from_str("a command requires a key"),
            CommandError::DuplicateKey(key) => {
                let mut r = String::from_str("duplicate command key: ");
                push_char(&mut r, *key);
                r
            },
            CommandError::Net(e) => e.message(),
        }
    }
}

/// Which command a descriptor stands for.
#[derive(Clone, Copy, Debug, PartialEq, Eq, Structural)]
pub enum CommandFn {
    /// [`add_addr`].
    AddAddr,
    /// [`del_addr`].
    DelAddr,
    /// [`list_addrs`].
    ListAddrs,
    /// [`gateway`].
    Gateway,
    /// [`help`].
    Help,
}

/// The descriptor of a command: the key that calls it, what the help says of
/// it, and the command itself.
#[derive(Clone, Debug, PartialEq, Eq)]
pub struct Command {
    pub key: char,
    pub name: String,
    pub usage: String,
    pub description: String,
    pub func: CommandFn,
}

/// A command descriptor as plain values.
pub struct CommandView {
    pub key: char,
    pub name: Seq<char>,
    pub usage: Seq<char>,
    pub description: Seq<char>,
    pub func: CommandFn,
}

impl View for Command {
    type V = CommandView;

    open spec fn view(&self) -> CommandView {
        CommandView {
            key: self.key,
            name: self.name@,
            usage: self.usage@,
            description: self.description@,
            func: self.func,
        }
    }
}

/// The value of one part of a command's description.
#[derive(Clone, Debug, PartialEq, Eq)]
pub enum MetaValue {
    /// A character.
    Char(char),
    /// A text.
    Str(String),
    /// Anything else.
    Other,
}

/// One part of a command's description: a name and the value given for it.
#[derive(Clone, Debug, PartialEq, Eq)]
pub struct MetaArg {
    pub name: String,
    pub value: MetaValue,
}

/// The character that `args` gives for `name`: that of the last part with
/// this name whose value is a character.
pub open spec fn meta_char(args: Seq<MetaArg>, name: Seq<char>) -> Option<char>
    decreases args.len(),
{
    if args.len() == 0 {
        None
    } else {
        match args.last().value {
            MetaValue::Char(c) if args.last().name@ == name => Some(c),
            _ => meta_char(args.drop_last(), name),
        }
    }
}

/// The text that `args` gives for `name`: that of the last part with this
/// name whose value is a text.
pub open spec fn meta_str(args: Seq<MetaArg>, name: Seq<char>) -> Option<Seq<char>>
    decreases args.len(),
{
    if args.len() == 0 {
        None
    } else {
        match args.last().value {
            MetaValue::Str(s) if args.last().name@ == name => Some(s@),
            _ => meta_str(args.drop_last(), name),
        }
    }
}

/// `given`, or `fallback` where nothing is given.
pub open spec fn or_default(given: Option<Seq<char>>, fallback: Seq<char>) -> Seq<char> {
    match given {
        Some(s) => s,
        None => fallback,
    }
}

/// The descriptor that the parts `args` describe for the command `func`, if
/// they give a key. The name and the usage are the key itself where none is
/// given, and the description is empty where none is given.
pub open spec fn described(args: Seq<MetaArg>, func: CommandFn) -> Option<CommandView> {
    match meta_char(args, "key"@) {
        Some(key) => Some(
            CommandView {
                key,
                name: or_default(meta_str(args, "name"@), seq![key]),
                usage: or_default(meta_str(args, "usage"@), seq![key]),
                description: or_default(meta_str(args, "description"@), Seq::empty()),
                func,
            },
        ),
        None => None,
    }
}

/// The text of `o`, if any.
pub open spec fn text_of(o: Option<String>) -> Option<Seq<char>> {
    match o {
        Some(s) => Some(s@),
        None => None,
    }
}

/// The text that is given, or a copy of the fallback.
fn given_or(given: Option<String>, fallback: &Vec<char>) -> (r: String)
    ensures
        r@ == or_default(text_of(given), fallback@),
{
    match given {
        Some(s) => s,
        None => string_of(fallback),
    }
}

/// Builds the descriptor of the command `func` from the parts of its
/// description.
///
/// Parts named `key`, `name`, `usage` and `description` count, where a later
/// part overrides an earlier one; a part with another name, or with a value of
/// the wrong kind, counts for nothing. Without a key there is no descriptor.
pub fn command(args: &Vec<MetaArg>, func: CommandFn) -> (r: Result<Command, CommandError>)
    ensures
        match described(args@, func) {
            Some(d) => r is Ok && r->Ok_0@ == d,
            None => r is Err && r->Err_0 == CommandError::MissingKey,
        },
{
    let mut key: Option<char> = None;
    let mut name: Option<String> = None;
    let mut usage: Option<String> = None;
    let mut description: Option<String> = None;
    let mut i: usize = 0;
    while i < args.len()
        invariant
            i <= args@.len(),
            key == meta_char(args@.subrange(0, i as int), "key"@),
            text_of(name) == meta_str(args@.subrange(0, i as int), "name"@),
            text_of(usage) == meta_str(args@.subrange(0, i as int), "usage"@),
            text_of(description) == meta_str(args@.subrange(0, i as int), "description"@),
        decreases args@.len() - i,
    {
        let arg = &args[i];
        proof {
            let next = args@.subrange(0, i + 1);
            assert(next.drop_last() =~= args@.subrange(0, i as int));
            assert(next.last() == args@[i as int]);
        }
        match &arg.value {
            MetaValue::Char(c) => {
                if same_text(arg.name.as_str(), "key") {
                    key = Some(*c);
                }
            },
            MetaValue::Str(s) => {
                if same_text(arg.name.as_str(), "name") {
                    name = Some(s.clone());
                }
                if same_text(arg.name.as_str(), "usage") {
                    usage = Some(s.clone());
                }
                if same_text(arg.name.as_str(), "description") {
                    description = Some(s.clone());
                }
            },
            MetaValue::Other => {},
        }
        i += 1;
    }
    assert(args@.subrange(0, args@.len() as int) =~= args@);
    let key = match key {
        Some(k) => k,
        None => {
            return Err(CommandError::MissingKey);
        },
    };
    let mut fallback: Vec<char> = Vec::new();
    fallback.push(key);
    let empty: Vec<char> = Vec::new();
    Ok(
        Command {
            key,
            name: given_or(name, &fallback),
            usage: given_or(usage, &fallback),
            description: given_or(description, &empty),
            func,
        },
    )
}

/// Whether no key stands twice in `s`.
pub open spec fn distinct_keys(s: Seq<Command>) -> bool {
    forall|i: int, j: int| 0 <= i < j < s.len() ==> (#[trigger] s[i]).key != (#[trigger] s[j]).key
}

/// The table of the commands, in the order in which they were registered. No
/// two commands of a registry have the same key.
pub struct Registry {
    commands: Vec<Command>,
}

impl View for Registry {
    type V = Seq<Command>;

    closed spec fn view(&self) -> Seq<Command> {
        self.commands@
    }
}

impl Registry {
    #[verifier::type_invariant]
    spec fn keys_are_distinct(self) -> bool {
        distinct_keys(self.commands@)
    }

    /// The registry of the commands `commands`, in their order, unless two of
    /// them have the same key: the key that is refused is that of the first
    /// command whose key an earlier command has.
    pub fn new(commands: Vec<Command>) -> (r: Result<Registry, CommandError>)
        ensures
            distinct_keys(commands@) ==> r is Ok && r->Ok_0@ == commands@,
            !distinct_keys(commands@) ==> r is Err,
            r matches Err(e) ==> exists|i: int, j: int|
                0 <= i < j < commands@.len() && (#[trigger] commands@[i]).key == (
                #[trigger] commands@[j]).key && e == CommandError::DuplicateKey(commands@[j].key)
                    && distinct_keys(commands@.subrange(0, j)),
    {
        let mut j: usize = 0;
        while j < commands.len()
            invariant
                j <= commands@.len(),
                forall|x: int, y: int|
                    0 <= x < y < j ==> (#[trigger] commands@[x]).key != (#[trigger] commands@[y]).key,
            decreases commands@.len() - j,
        {
            let mut i: usize = 0;
            while i < j
                invariant
                    i <= j < commands@.len(),
                    forall|x: int, y: int|
                        0 <= x < y < j ==> (#[trigger] commands@[x]).key != (
                        #[trigger] commands@[y]).key,
                    forall|x: int| 0 <= x < i ==> (#[trigger] commands@[x]).key != commands@[j as int].key,
                decreases j - i,
            {
                if commands[i].key == commands[j].key {
                    return Err(CommandError::DuplicateKey(commands[j].key));
                }
                i += 1;
            }
            j += 1;
        }
        Ok(Registry { commands })
    }

    /// The number of commands.
    pub fn len(&self) -> (r: usize)
        ensures
            r == self@.len(),
    {
        self.commands.len()
    }

    /// The command at place `i` of the table, counted from zero.
    pub fn get(&self, i: usize) -> (r: Option<&Command>)
        ensures
            i < self@.len() ==> r is Some && *r->0 == self@[i as int],
            i >= self@.len() ==> r is None,
    {
        if i < self.commands.len() {
            Some(&self.commands[i])
        } else {
            None
        }
    }

    /// The command that `key` calls, if there is one. There is never more
    /// than one.
    pub fn lookup(&self, key: char) -> (r: Option<&Command>)
        ensures
            distinct_keys(self@),
            match r {
                Some(c) => c.key == key && exists|i: int|
                    0 <= i < self@.len() && #[trigger] self@[i] == *c,
                None => forall|i: int| 0 <= i < self@.len() ==> (#[trigger] self@[i]).key != key,
            },
    {
        proof {
            use_type_invariant(self);
        }
        let mut i: usize = 0;
        while i < self.commands.len()
            invariant
                i <= self.commands@.len(),
                distinct_keys(self.commands@),
                forall|j: int| 0 <= j < i ==> (#[trigger] self.commands@[j]).key != key,
            decreases self.commands@.len() - i,
        {
            if self.commands[i].key == key {
                return Some(&self.commands[i]);
            }
            i += 1;
        }
        None
    }

    /// The registry of the five commands of the operator: add, delete, list,
    /// gateway and help, in this order.
    pub fn standard() -> (r: Registry)
        ensures
            r@.len() == 5,
            r@[0]@ == describe_view('a', "add"@, "a<ip/mask>"@, "Add IPv4 address in CIDR notation to the interface"@, CommandFn::AddAddr),
            r@[1]@ == describe_view('d', "delete"@, "d<index>"@, "Delete IPv4 address by its index from the list"@, CommandFn::DelAddr),
            r@[2]@ == describe_view('l', "list"@, "l"@, "List IPv4 addresses on the interface"@, CommandFn::ListAddrs),
            r@[3]@ == describe_view('g', "gateway"@, "g or g<ip>"@, "Show current gateway or set a new one"@, CommandFn::Gateway),
            r@[4]@ == describe_view('h', "help"@, "h"@, "Show this help"@, CommandFn::Help),
    {
        let mut table: Vec<Command> = Vec::new();
        table.push(
            describe(
                'a',
                "add",
                "a<ip/mask>",
                "Add IPv4 address in CIDR notation to the interface",
                CommandFn::AddAddr,
            ),
        );
        table.push(
            describe(
                'd',
                "delete",
                "d<index>",
                "Delete IPv4 address by its index from the list",
                CommandFn::DelAddr,
            ),
        );
        table.push(
            describe('l', "list", "l", "List IPv4 addresses on the interface", CommandFn::ListAddrs),
        );
        table.push(
            describe(
                'g',
                "gateway",
                "g or g<ip>",
                "Show current gateway or set a new one",
                CommandFn::Gateway,
            ),
        );
        table.push(describe('h', "help", "h", "Show this help", CommandFn::Help));
        Registry { commands: table }
    }
}

/// A descriptor with the given parts.
pub open spec fn describe_view(
    key: char,
    name: Seq<char>,
    usage: Seq<char>,
    description: Seq<char>,
    func: CommandFn,
) -> CommandView {
    CommandView { key, name, usage, description, func }
}

/// One part of a description: `name` with a text as its value.
fn text_part(name: &str, value: &str) -> (r: MetaArg)
    ensures
        r.name@ == name@,
        r.value matches MetaValue::Str(s) && s@ == value@,
{
    MetaArg { name: String::from_str(name), value: MetaValue::Str(String::from_str(value)) }
}

/// The four names of a description are four different texts.
proof fn lemma_part_names()
    ensures
        "key"@ != "name"@,
        "key"@ != "usage"@,
        "key"@ != "description"@,
        "name"@ != "usage"@,
        "name"@ != "description"@,
        "usage"@ != "description"@,
{
    reveal_strlit("key");
    reveal_strlit("name");
    reveal_strlit("usage");
    reveal_strlit("description");
    assert("key"@.len() == 3);
    assert("name"@.len() == 4);
    assert("usage"@.len() == 5);
    assert("description"@.len() == 11);
}

/// The descriptor of the command `func` with all four parts of its
/// description given.
pub fn describe(key: char, name: &str, usage: &str, description: &str, func: CommandFn) -> (r:
    Command)
    ensures
        r@ == describe_view(key, name@, usage@, description@, func),
{
    let mut args: Vec<MetaArg> = Vec::new();
    args.push(MetaArg { name: String::from_str("key"), value: MetaValue::Char(key) });
    args.push(text_part("name", name));
    args.push(text_part("usage", usage));
    args.push(text_part("description", description));
    proof {
        lemma_part_names();
        let a = args@;
        let a3 = a.drop_last();
        let a2 = a3.drop_last();
        let a1 = a2.drop_last();
        assert(a1.drop_last() =~= Seq::<MetaArg>::empty());
        assert(a.len() == 4 && a3.len() == 3 && a2.len() == 2 && a1.len() == 1);
        assert(a.last() == a[3] && a3.last() == a[2] && a2.last() == a[1] && a1.last() == a[0]);
        assert(meta_char(a1, "key"@) == Some(key));
        assert(meta_char(a2, "key"@) == Some(key));
        assert(meta_char(a3, "key"@) == Some(key));
        assert(meta_char(a, "key"@) == Some(key));
        assert(meta_str(a2, "name"@) == Some(name@));
        assert(meta_str(a3, "name"@) == Some(name@));
        assert(meta_str(a, "name"@) == Some(name@));
        assert(meta_str(a3, "usage"@) == Some(usage@));
        assert(meta_str(a, "usage"@) == Some(usage@));
        assert(meta_str(a, "description"@) == Some(description@));
    }
    match command(&args, func) {
        Ok(c) => c,
        Err(_) => {
            assert(false);
            Command {
                key,
                name: String::from_str(name),
                usage: String::from_str(usage),
                description: String::from_str(description),
                func,
            }
        },
    }
}

/// The line that the help shows for a command: its usage, its name and its
/// description.
pub open spec fn help_line(c: CommandView) -> Seq<char> {
    c.usage + " - "@ + c.name + ": "@ + c.description
}

/// The help: a heading, then one line for each registered command, in the
/// order of the registry.
pub fn help(registry: &Registry) -> (r: Vec<String>)
    ensures
        r@.len() == registry@.len() + 1,
        r@[0]@ == "Available commands:"@,
        forall|i: int| 0 <= i < registry@.len() ==> (#[trigger] r@[i + 1])@ == help_line(registry@[i]@),
        distinct_keys(registry@),
{
    proof {
        use_type_invariant(registry);
    }
    let mut r: Vec<String> = Vec::new();
    r.push(String::from_str("Available commands:"));
    let n = registry.len();
    let mut i: usize = 0;
    while i < n
        invariant
            i <= n,
            n == registry@.len(),
            r@.len() == i + 1,
            r@[0]@ == "Available commands:"@,
            forall|j: int| 0 <= j < i ==> (#[trigger] r@[j + 1])@ == help_line(registry@[j]@),
        decreases n - i,
    {
        if let Some(c) = registry.get(i) {
            let mut line = c.usage.clone();
            line.append(" - ");
            line.append(c.name.as_str());
            line.append(": ");
            line.append(c.description.as_str());
            r.push(line);
        }
        i += 1;
    }
    r
}

/// What is shown to the operator once the steps of a plan are carried out.
#[derive(Clone, Copy, Debug, PartialEq, Eq, Structural)]
pub enum Show {
    /// The addresses of the interface, listed anew.
    Addresses,
    /// The default gateway, read anew.
    Gateway,
    /// The help.
    Help,
}

/// What a command decided: the steps to carry out, in order, and what to show
/// after them. A step that cannot be carried out ends the plan.
#[derive(Clone, Debug, PartialEq, Eq)]
pub struct Plan {
    pub effects: Vec<Effect>,
    pub show: Show,
}

impl View for Plan {
    type V = (Seq<Effect>, Show);

    open spec fn view(&self) -> (Seq<Effect>, Show) {
        (self.effects@, self.show)
    }
}

/// The result of a command as plain values.
pub open spec fn outcome_of(r: Result<Plan, CommandError>) -> Result<
    (Seq<Effect>, Show),
    CommandError,
> {
    match r {
        Ok(plan) => Ok(plan@),
        Err(e) => Err(e),
    }
}

/// The parameter of a command as plain values.
pub open spec fn param_text(param: Option<&str>) -> Option<Seq<char>> {
    match param {
        Some(p) => Some(p@),
        None => None,
    }
}

/// Whether `out` is what the add command decides: without a parameter and for
/// a parameter that is no address with a prefix length it refuses, and nothing
/// is to be carried out; else the address is to be added and the addresses
/// are to be listed.
pub open spec fn is_add_outcome(
    idx: u32,
    param: Option<Seq<char>>,
    out: Result<(Seq<Effect>, Show), CommandError>,
) -> bool {
    match param {
        None => out == Err::<(Seq<Effect>, Show), CommandError>(CommandError::NoAddress),
        Some(p) => if is_cidr_text(p) {
            exists|addr: Ipv4Addr, prefix: u8|
                prefix <= 32 && p == #[trigger] cidr_text(addr, prefix) && out == Ok::<
                    (Seq<Effect>, Show),
                    CommandError,
                >((add_steps(idx, addr, prefix), Show::Addresses))
        } else {
            out == Err::<(Seq<Effect>, Show), CommandError>(CommandError::InvalidAddress)
        },
    }
}

/// What the delete command decides: the address at the place that the parameter
/// spells, counted from one in the list that was shown last, is to be
/// removed, and the addresses are to be listed.
pub open spec fn del_outcome(idx: u32, param: Option<Seq<char>>, cache: Seq<Ipv4Addr>) -> Result<
    (Seq<Effect>, Show),
    CommandError,
> {
    match param {
        None => Err(CommandError::NoIndex),
        Some(p) => match index_of_text(p) {
            None => Err(CommandError::InvalidIndex),
            Some(n) => if n == 0 {
                Err(CommandError::ZeroIndex)
            } else if n > cache.len() {
                Err(CommandError::IndexOutOfRange)
            } else {
                Ok((del_steps(idx, cache[n - 1]), Show::Addresses))
            },
        },
    }
}

/// What the list command decides: it takes no parameter.
pub open spec fn list_outcome(param: Option<Seq<char>>) -> Result<(Seq<Effect>, Show), CommandError> {
    match param {
        None => Ok((Seq::empty(), Show::Addresses)),
        Some(_) => Err(CommandError::UnexpectedArgument),
    }
}

/// Whether `out` is what the gateway command decides: without a parameter the
/// gateway is shown; with an address it is set first; any other parameter is
/// refused.
pub open spec fn is_gateway_outcome(
    idx: u32,
    param: Option<Seq<char>>,
    out: Result<(Seq<Effect>, Show), CommandError>,
) -> bool {
    match param {
        None => out == Ok::<(Seq<Effect>, Show), CommandError>((Seq::empty(), Show::Gateway)),
        Some(p) => if exists|addr: Ipv4Addr| p == #[trigger] addr.text() {
            exists|addr: Ipv4Addr|
                p == #[trigger] addr.text() && out == Ok::<(Seq<Effect>, Show), CommandError>(
                    (gateway_steps(idx, addr), Show::Gateway),
                )
        } else {
            out == Err::<(Seq<Effect>, Show), CommandError>(CommandError::InvalidGateway)
        },
    }
}

/// Whether `out` is what the command `func` decides for the interface `idx`,
/// the parameter `param` and the list `cache` that was shown last.
pub open spec fn is_outcome(
    func: CommandFn,
    idx: u32,
    param: Option<Seq<char>>,
    cache: Seq<Ipv4Addr>,
    out: Result<(Seq<Effect>, Show), CommandError>,
) -> bool {
    match func {
        CommandFn::AddAddr => is_add_outcome(idx, param, out),
        CommandFn::DelAddr => out == del_outcome(idx, param, cache),
        CommandFn::ListAddrs => out == list_outcome(param),
        CommandFn::Gateway => is_gateway_outcome(idx, param, out),
        CommandFn::Help => out == Ok::<(Seq<Effect>, Show), CommandError>(
            (Seq::empty(), Show::Help),
        ),
    }
}

/// A command decides one thing only: two outcomes of the same command on the
/// same input are the same.
pub proof fn lemma_outcome_unique(
    func: CommandFn,
    idx: u32,
    param: Option<Seq<char>>,
    cache: Seq<Ipv4Addr>,
    one: Result<(Seq<Effect>, Show), CommandError>,
    other: Result<(Seq<Effect>, Show), CommandError>,
)
    requires
        is_outcome(func, idx, param, cache, one),
        is_outcome(func, idx, param, cache, other),
    ensures
        one == other,
{
    match func {
        CommandFn::AddAddr => {
            if param is Some && is_cidr_text(param->0) {
                let p = param->0;
                let (a, q) = choose|addr: Ipv4Addr, prefix: u8|
                    prefix <= 32 && p == #[trigger] cidr_text(addr, prefix) && one == Ok::<
                        (Seq<Effect>, Show),
                        CommandError,
                    >((add_steps(idx, addr, prefix), Show::Addresses));
                let (b, r) = choose|addr: Ipv4Addr, prefix: u8|
                    prefix <= 32 && p == #[trigger] cidr_text(addr, prefix) && other == Ok::<
                        (Seq<Effect>, Show),
                        CommandError,
                    >((add_steps(idx, addr, prefix), Show::Addresses));
                lemma_cidr_injective(a, q, b, r);
            }
        },
        CommandFn::Gateway => {
            if param is Some && exists|addr: Ipv4Addr| param->0 == #[trigger] addr.text() {
                let p = param->0;
                let a = choose|addr: Ipv4Addr|
                    p == #[trigger] addr.text() && one == Ok::<(Seq<Effect>, Show), CommandError>(
                        (gateway_steps(idx, addr), Show::Gateway),
                    );
                let b = choose|addr: Ipv4Addr|
                    p == #[trigger] addr.text() && other == Ok::<(Seq<Effect>, Show), CommandError>(
                        (gateway_steps(idx, addr), Show::Gateway),
                    );
                a.lemma_text_injective(b);
            }
        },
        _ => {},
    }
}

/// The add command: binds the address of the parameter, written as
/// `A.B.C.D/P`, to the interface.
pub fn add_addr(net: &Net, param: Option<&str>) -> (r: Result<Plan, CommandError>)
    ensures
        is_add_outcome(net.index(), param_text(param), outcome_of(r)),
{
    let param = match param {
        Some(p) => p,
        None => {
            return Err(CommandError::NoAddress);
        },
    };
    let (addr, mask) = match parse_cidr(param) {
        Some(parsed) => parsed,
        None => {
            return Err(CommandError::InvalidAddress);
        },
    };
    match net.add_addr(&addr, mask) {
        Ok(effects) => {
            let plan = Plan { effects, show: Show::Addresses };
            Ok(plan)
        },
        Err(e) => {
            // A prefix length that was read is at most 32 and never refused.
            assert(false);
            Err(CommandError::Net(e))
        },
    }
}

/// The delete command: unbinds the address that stands at the place of the
/// parameter, counted from one, in the list that was shown last.
pub fn del_addr(net: &Net, param: Option<&str>, cache: &Vec<Ipv4Addr>) -> (r: Result<
    Plan,
    CommandError,
>)
    ensures
        outcome_of(r) == del_outcome(net.index(), param_text(param), cache@),
{
    let param = match param {
        Some(p) => p,
        None => {
            return Err(CommandError::NoIndex);
        },
    };
    let place = match parse_index(param) {
        Some(p) => p,
        None => {
            return Err(CommandError::InvalidIndex);
        },
    };
    let idx = match place {
        Place::At(n) => n,
        Place::Beyond => {
            assert(cache@.len() == cache.len());
            return Err(CommandError::IndexOutOfRange);
        },
    };
    if idx == 0 {
        return Err(CommandError::ZeroIndex);
    }
    let idx = idx - 1;
    if idx >= cache.len() {
        return Err(CommandError::IndexOutOfRange);
    }
    let ip = cache[idx];
    Ok(Plan { effects: net.del_addr(&ip), show: Show::Addresses })
}

/// The gateway command: shows the default gateway, after making the address
/// of the parameter the default gateway where there is a parameter.
pub fn gateway(net: &Net, param: Option<&str>) -> (r: Result<Plan, CommandError>)
    ensures
        is_gateway_outcome(net.index(), param_text(param), outcome_of(r)),
{
    match param {
        None => Ok(Plan { effects: Vec::new(), show: Show::Gateway }),
        Some(p) => {
            let chars = chars_of(p);
            match Ipv4Addr::parse(&chars) {
                Some(addr) => Ok(Plan { effects: net.set_gateway(&addr), show: Show::Gateway }),
                None => Err(CommandError::InvalidGateway),
            }
        },
    }
}

/// Takes note of how one step of a plan went: `done` says whether it could be
/// carried out.
///
/// A step that was carried out is followed by the next. A step that could not
/// be carried out ends the plan: its error is what the command answers, no
/// later step is to be carried out and nothing is shown.
pub fn settle(net: &mut Net, effect: &Effect, done: bool) -> (r: Result<(), CommandError>)
    ensures
        final(net).index() == old(net).index(),
        done ==> r is Ok && final(net).masks() == effect.store_after(old(net).masks()),
        !done ==> r == Err::<(), CommandError>(CommandError::Net(effect.failure_of())),
        !done ==> final(net).masks() == old(net).masks(),
{
    match net.settle(effect, done) {
        Ok(()) => Ok(()),
        Err(e) => Err(CommandError::Net(e)),
    }
}

/// Calls the command `func`.
pub fn invoke(func: CommandFn, net: &Net, param: Option<&str>, cache: &Vec<Ipv4Addr>) -> (r: Result<
    Plan,
    CommandError,
>)
    ensures
        is_outcome(func, net.index(), param_text(param), cache@, outcome_of(r)),
{
    match func {
        CommandFn::AddAddr => add_addr(net, param),
        CommandFn::DelAddr => del_addr(net, param, cache),
        CommandFn::ListAddrs => match param {
            None => Ok(Plan { effects: Vec::new(), show: Show::Addresses }),
            Some(_) => Err(CommandError::UnexpectedArgument),
        },
        CommandFn::Gateway => gateway(net, param),
        CommandFn::Help => Ok(Plan { effects: Vec::new(), show: Show::Help }),
    }
}

/// The key that ends the session.
pub const QUIT_KEY: char = 'q';

/// What a typed line leads to.
#[derive(Clone, Debug, PartialEq, Eq)]
pub enum Dispatch {
    /// Nothing: the line is empty.
    Idle,
    /// The end of the session.
    Quit,
    /// A plan to carry out.
    Run(Plan),
    /// A refusal to report; the session goes on.
    Fail(CommandError),
}

/// The key of a line: its first character.
pub open spec fn line_key(line: Seq<char>) -> char
    recommends
        line.len() > 0,
{
    line[0]
}

/// The parameter of a line: what follows the key, where anything follows.
pub open spec fn line_param(line: Seq<char>) -> Option<Seq<char>> {
    if line.len() > 1 {
        Some(line.subrange(1, line.len() as int))
    } else {
        None
    }
}

/// Parts a line into its key and its parameter; an empty line has neither.
pub fn split_line<'a>(line: &'a str) -> (r: Option<(char, Option<&'a str>)>)
    ensures
        line@.len() == 0 ==> r is None,
        line@.len() > 0 ==> r is Some,
        r matches Some((key, param)) ==> key == line_key(line@) && param_text(param) == line_param(
            line@,
        ),
{
    let n = line.unicode_len();
    if n == 0 {
        return None;
    }
    let key = line.get_char(0);
    if n == 1 {
        Some((key, None))
    } else {
        Some((key, Some(line.substring_char(1, n))))
    }
}

/// Whether `d` is what the line `line` leads to with the commands `commands`.
///
/// An empty line leads to nothing and the quit key to the end, whatever
/// follows it. Any other key calls the command registered for it, with what
/// follows the key as its parameter; a key that no command is registered for
/// is refused.
pub open spec fn is_dispatch(
    commands: Seq<Command>,
    idx: u32,
    cache: Seq<Ipv4Addr>,
    line: Seq<char>,
    d: Dispatch,
) -> bool {
    if line.len() == 0 {
        d is Idle
    } else if line_key(line) == QUIT_KEY {
        d is Quit
    } else if forall|i: int| 0 <= i < commands.len() ==> (#[trigger] commands[i]).key != line_key(
        line,
    ) {
        d == Dispatch::Fail(CommandError::UnknownCommand(line_key(line)))
    } else {
        exists|i: int|
            0 <= i < commands.len() && (#[trigger] commands[i]).key == line_key(line) && is_outcome(
                commands[i].func,
                idx,
                line_param(line),
                cache,
                dispatch_outcome(d),
            ) && (d is Run || d is Fail)
    }
}

/// The plan or the refusal of a dispatch as plain values.
pub open spec fn dispatch_outcome(d: Dispatch) -> Result<(Seq<Effect>, Show), CommandError> {
    match d {
        Dispatch::Run(plan) => Ok(plan@),
        Dispatch::Fail(e) => Err(e),
        _ => Err(CommandError::MissingKey),
    }
}

/// Decides what a typed line leads to.
pub fn dispatch(registry: &Registry, net: &Net, cache: &Vec<Ipv4Addr>, line: &str) -> (d: Dispatch)
    ensures
        is_dispatch(registry@, net.index(), cache@, line@, d),
{
    let (key, param) = match split_line(line) {
        Some(parts) => parts,
        None => {
            return Dispatch::Idle;
        },
    };
    if key == QUIT_KEY {
        return Dispatch::Quit;
    }
    let command = match registry.lookup(key) {
        Some(c) => c,
        None => {
            return Dispatch::Fail(CommandError::UnknownCommand(key));
        },
    };
    match invoke(command.func, net, param, cache) {
        Ok(plan) => Dispatch::Run(plan),
        Err(e) => Dispatch::Fail(e),
    }
}

/// One line of the list of addresses, in its three parts.
#[derive(Clone, Debug, PartialEq, Eq)]
pub struct ListLine {
    /// The place of the address in the list, counted from one.
    pub index: String,
    /// The address.
    pub addr: String,
    /// A slash and the prefix length, or a slash and a question mark where
    /// the prefix length is unknown.
    pub mask: String,
}

/// A list of addresses as it is shown, and its addresses in the order in
/// which they are shown.
#[derive(Clone, Debug, PartialEq, Eq)]
pub struct Listing {
    pub lines: Vec<ListLine>,
    pub cache: Vec<Ipv4Addr>,
}

/// How a prefix length is shown behind its address.
pub open spec fn mask_label(mask: Option<u8>) -> Seq<char> {
    match mask {
        Some(prefix) => seq!['/'] + decimal(prefix as nat),
        None => seq!['/', '?'],
    }
}

/// Whether `lines` and `cache` show the list `list`: line by line the place,
/// counted from one, the address and its prefix length, and in the cache the
/// addresses in the same order.
pub open spec fn shows(
    lines: Seq<ListLine>,
    cache: Seq<Ipv4Addr>,
    list: Seq<(Ipv4Addr, Option<u8>)>,
) -> bool {
    &&& lines.len() == list.len()
    &&& cache.len() == list.len()
    &&& forall|i: int|
        0 <= i < list.len() ==> {
            &&& (#[trigger] lines[i]).index@ == decimal((i + 1) as nat)
            &&& lines[i].addr@ == list[i].0.text()
            &&& lines[i].mask@ == mask_label(list[i].1)
        }
    &&& forall|i: int| 0 <= i < list.len() ==> #[trigger] cache[i] == list[i].0
}

impl ListLine {
    /// The line as one text: the place, a dash, the address and the prefix
    /// length.
    pub open spec fn line_text(self) -> Seq<char> {
        self.index@ + " - "@ + self.addr@ + self.mask@
    }

    /// The line as one text.
    pub fn text(&self) -> (r: String)
        ensures
            r@ == self.line_text(),
    {
        let mut r = self.index.clone();
        r.append(" - ");
        r.append(self.addr.as_str());
        r.append(self.mask.as_str());
        r
    }
}

/// Shows a list of addresses with their prefix lengths.
pub fn render_list(list: &Vec<(Ipv4Addr, Option<u8>)>) -> (r: Listing)
    ensures
        shows(r.lines@, r.cache@, list@),
{
    let mut lines: Vec<ListLine> = Vec::new();
    let mut cache: Vec<Ipv4Addr> = Vec::new();
    let mut i: usize = 0;
    while i < list.len()
        invariant
            i <= list@.len(),
            shows(lines@, cache@, list@.subrange(0, i as int)),
        decreases list@.len() - i,
    {
        let (addr, mask) = list[i];
        let mut label: Vec<char> = Vec::new();
        label.push('/');
        match mask {
            Some(prefix) => {
                push_decimal(&mut label, prefix as u64);
            },
            None => {
                label.push('?');
            },
        }
        let mut place: Vec<char> = Vec::new();
        push_decimal(&mut place, i as u64 + 1);
        let line = ListLine { index: string_of(&place), addr: addr.to_text(), mask: string_of(&label) };
        proof {
            let before = list@.subrange(0, i as int);
            let after = list@.subrange(0, i + 1);
            assert(after =~= before.push(list@[i as int]));
            assert forall|j: int| 0 <= j < after.len() implies {
                &&& (#[trigger] lines@.push(line)[j]).index@ == decimal((j + 1) as nat)
                &&& lines@.push(line)[j].addr@ == after[j].0.text()
                &&& lines@.push(line)[j].mask@ == mask_label(after[j].1)
            } by {
                if j < i {
                    assert(lines@.push(line)[j] == lines@[j]);
                    assert(after[j] == before[j]);
                }
            }
            assert forall|j: int| 0 <= j < after.len() implies #[trigger] cache@.push(addr)[j]
                == after[j].0 by {
                if j < i {
                    assert(cache@.push(addr)[j] == cache@[j]);
                    assert(after[j] == before[j]);
                }
            }
        }
        lines.push(line);
        cache.push(addr);
        i += 1;
    }
    Listing { lines, cache }
}

/// The list command: the addresses bound to the interface, in ascending
/// order, each with its prefix length as far as the mask store knows it.
///
/// The list takes no parameter. The interface is looked up in `ifaces`. The
/// list that is shown becomes the list `cache` that a later delete command
/// counts in; where the interface is gone, that list is empty. A list command
/// that is refused for its parameter leaves it as it was.
pub fn list_addrs(
    net: &Net,
    param: Option<&str>,
    ifaces: &Vec<Interface>,
    cache: &mut Vec<Ipv4Addr>,
) -> (r: Result<Vec<ListLine>, CommandError>)
    ensures
        match r {
            Ok(lines) => param is None && exists|k: int, list: Seq<(Ipv4Addr, Option<u8>)>|
                #[trigger] is_first_with_index(ifaces@, net.index(), k) && #[trigger] is_listing(
                    list,
                    ifaces@[k].ipv4@,
                    net.masks(),
                ) && shows(lines@, final(cache)@, list),
            Err(e) => if param is Some {
                e == CommandError::UnexpectedArgument && final(cache)@ == old(cache)@
            } else {
                e == CommandError::Net(NetError::NotFound) && final(cache)@ == Seq::<
                    Ipv4Addr,
                >::empty() && forall|j: int|
                    0 <= j < ifaces@.len() ==> (#[trigger] ifaces@[j]).index != net.index()
            },
        },
{
    if param.is_some() {
        return Err(CommandError::UnexpectedArgument);
    }
    cache.clear();
    match net.get_addrs(ifaces) {
        Ok(list) => {
            let listing = render_list(&list);
            proof {
                let k = choose|k: int|
                    #[trigger] is_first_with_index(ifaces@, net.index(), k) && is_listing(
                        list@,
                        ifaces@[k].ipv4@,
                        net.masks(),
                    );
                assert(is_first_with_index(ifaces@, net.index(), k) && is_listing(
                    list@,
                    ifaces@[k].ipv4@,
                    net.masks(),
                ) && shows(listing.lines@, listing.cache@, list@));
            }
            *cache = listing.cache;
            Ok(listing.lines)
        },
        Err(e) => Err(CommandError::Net(e)),
    }
}

/// The default gateway as it is shown, where the default route has an IPv4
/// one.
pub fn show_gateway(route: &DefaultRoute) -> (r: Result<String, CommandError>)
    ensures
        match *route {
            DefaultRoute::V4(gateway) => r is Ok && r->Ok_0@ == gateway.text(),
            _ => r is Err && r->Err_0 == CommandError::Net(NetError::GatewayUnavailable),
        },
{
    match Net::get_gateway(route) {
        Ok(gateway) => Ok(gateway.to_text()),
        Err(e) => Err(CommandError::Net(e)),
    }
}

} // verus!
