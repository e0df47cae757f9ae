//! The network that the generator runs on: how the command line selects it, and the check that the
//! node and the address belong to it.
use vstd::prelude::*;

use crate::keys::address_of;
use crate::text::{
    after_prefix, ascii_lowercase, contains, contains_text, is_ascii_text, lowercase_of, number,
    parse_u64, same, same_ignoring_ascii_case, stands_at, what_is_contained_is_inside,
    what_is_inside_is_contained,
};
use crate::tx::{Address, AddressPrefix};

verus! {

/// The texts of the arguments.
pub open spec fn texts(args: Seq<String>) -> Seq<Seq<char>> {
    args.map_values(|arg: String| arg@)
}

/// A network.
#[derive(Clone, Copy, Debug, PartialEq, Eq, Structural)]
pub enum Net {
    Mainnet,
    Testnet10,
    Devnet,
}

/// The network of this name in any case; another name changes nothing.
pub open spec fn named_net(name: Seq<char>, net: Net) -> Net {
    if ascii_lowercase(name) == "tn10"@ || ascii_lowercase(name) == "testnet10"@ {
        Net::Testnet10
    } else if ascii_lowercase(name) == "devnet"@ {
        Net::Devnet
    } else {
        net
    }
}

/// The network that the arguments select, where nothing but `net` is selected before them. The
/// name is the argument behind `--net`, or follows `--net=`.
pub open spec fn selected_net(args: Seq<Seq<char>>, net: Net) -> Net
    decreases args.len(),
{
    if args.len() == 0 {
        net
    } else if args[0] == "--net"@ {
        if args.len() == 1 {
            net
        } else {
            selected_net(args.skip(2), named_net(args[1], net))
        }
    } else if "--net="@.is_prefix_of(args[0]) {
        selected_net(args.skip(1), named_net(args[0].skip("--net="@.len() as int), net))
    } else {
        selected_net(args.skip(1), net)
    }
}

/// The value of the first occurrence of the flag: the argument behind it, or what follows the flag
/// and an equals sign.
pub open spec fn flag_value(args: Seq<Seq<char>>, flag: Seq<char>) -> Option<Seq<char>>
    decreases args.len(),
{
    if args.len() == 0 {
        None
    } else if args[0] == flag {
        if args.len() == 1 {
            None
        } else {
            Some(args[1])
        }
    } else if flag.push('=').is_prefix_of(args[0]) {
        Some(args[0].skip(flag.len() as int + 1))
    } else {
        flag_value(args.skip(1), flag)
    }
}

/// The number that is the value of the flag, where it spells one.
pub open spec fn flag_number(args: Seq<Seq<char>>, flag: Seq<char>) -> Option<u64> {
    match flag_value(args, flag) {
        Some(value) => number(value),
        None => None,
    }
}

impl Net {
    /// The address of the node that is used where none is given.
    pub open spec fn node(self) -> Seq<char> {
        match self {
            Net::Mainnet => "grpc://n-mainnet.kaspa.ws:16110"@,
            Net::Testnet10 => "grpc://n-testnet-10.kaspa.ws:16210"@,
            Net::Devnet => "grpc://127.0.0.1:16610"@,
        }
    }

    /// The prefix of the network's addresses.
    pub open spec fn address_prefix(self) -> AddressPrefix {
        match self {
            Net::Mainnet => AddressPrefix::Mainnet,
            Net::Testnet10 => AddressPrefix::Testnet,
            Net::Devnet => AddressPrefix::Devnet,
        }
    }

    /// What the id of the network holds.
    pub open spec fn hint(self) -> Seq<char> {
        match self {
            Net::Mainnet => "mainnet"@,
            Net::Testnet10 => "testnet-10"@,
            Net::Devnet => "devnet"@,
        }
    }

    /// The network that the arguments select, mainnet where they select none. The name of the
    /// program is not among the arguments.
    pub fn from_args(args: &Vec<String>) -> (net: Net)
        ensures
            net == selected_net(texts(args@), Net::Mainnet),
    {
        let mut net = Net::Mainnet;
        let mut i: usize = 0;
        let ghost all = texts(args@);
        assert(all.skip(0) =~= all);
        while i < args.len()
            invariant
                all == texts(args@),
                0 <= i <= args.len(),
                selected_net(all.skip(i as int), net) == selected_net(all, Net::Mainnet),
            decreases args.len() - i,
        {
            proof {
                assert(all.skip(i as int).skip(1) =~= all.skip(i + 1));
                assert(all.skip(i as int)[0] == args[i as int]@);
            }
            if same(args[i].as_str(), "--net") {
                i += 1;
                if i < args.len() {
                    proof {
                        assert(all.skip(i - 1).skip(2) =~= all.skip(i + 1));
                        assert(all.skip(i - 1)[1] == args[i as int]@);
                    }
                    net = net.or_named(args[i].as_str());
                    i += 1;
                }
            } else {
                if let Some(name) = after_prefix(args[i].as_str(), "--net=") {
                    net = net.or_named(name.as_str());
                }
                i += 1;
            }
        }
        net
    }

    /// The network of this name, or this one where it is no network's name.
    fn or_named(self, name: &str) -> (net: Net)
        ensures
            net == named_net(name@, self),
    {
        proof {
            names_are_lower_case();
        }
        if same_ignoring_ascii_case(name, "tn10") || same_ignoring_ascii_case(name, "testnet10") {
            Net::Testnet10
        } else if same_ignoring_ascii_case(name, "devnet") {
            Net::Devnet
        } else {
            self
        }
    }

    /// The address of the node that is used where none is given.
    pub fn grpc_url(self) -> (url: String)
        ensures
            url@ == self.node(),
    {
        match self {
            Net::Mainnet => "grpc://n-mainnet.kaspa.ws:16110".to_owned(),
            Net::Testnet10 => "grpc://n-testnet-10.kaspa.ws:16210".to_owned(),
            Net::Devnet => "grpc://127.0.0.1:16610".to_owned(),
        }
    }

    /// The prefix of the network's addresses.
    pub fn prefix(self) -> (prefix: AddressPrefix)
        ensures
            prefix == self.address_prefix(),
    {
        match self {
            Net::Mainnet => AddressPrefix::Mainnet,
            Net::Testnet10 => AddressPrefix::Testnet,
            Net::Devnet => AddressPrefix::Devnet,
        }
    }

    /// What the id of the network holds.
    pub fn expected_hint(self) -> (hint: &'static str)
        ensures
            hint@ == self.hint(),
    {
        match self {
            Net::Mainnet => "mainnet",
            Net::Testnet10 => "testnet-10",
            Net::Devnet => "devnet",
        }
    }

    /// The confirmations that a coinbase output needs where no other number is given.
    pub fn default_coinbase_maturity(self) -> (confirmations: u64)
        ensures
            confirmations == 100,
    {
        match self {
            Net::Mainnet | Net::Testnet10 | Net::Devnet => 100,
        }
    }
}

/// The value of a flag, as `flag value` or `flag=value`.
pub fn arg_value(args: &Vec<String>, flag: &str) -> (value: Option<String>)
    ensures
        value is Some <==> flag_value(texts(args@), flag@) is Some,
        value matches Some(value) ==> flag_value(texts(args@), flag@) == Some(value@),
{
    let prefix = flag.to_owned().concat("=");
    let mut i: usize = 0;
    let ghost all = texts(args@);
    proof {
        reveal_strlit("=");
        assert(all.skip(0) =~= all);
        assert(prefix@ =~= flag@.push('='));
    }
    while i < args.len()
        invariant
            all == texts(args@),
            prefix@ == flag@.push('='),
            0 <= i <= args.len(),
            flag_value(all.skip(i as int), flag@) == flag_value(all, flag@),
        decreases args.len() - i,
    {
        proof {
            assert(all.skip(i as int).skip(1) =~= all.skip(i + 1));
            assert(all.skip(i as int)[0] == args[i as int]@);
        }
        if same(args[i].as_str(), flag) {
            if i + 1 < args.len() {
                assert(all.skip(i as int)[1] == args[i + 1]@);
                return Some(args[i + 1].clone());
            }
            return None;
        }
        if let Some(value) = after_prefix(args[i].as_str(), prefix.as_str()) {
            return Some(value);
        }
        i += 1;
    }
    None
}

/// The number that is the value of a flag; a value that is none counts as absent.
pub fn arg_u64(args: &Vec<String>, flag: &str) -> (value: Option<u64>)
    ensures
        value == flag_number(texts(args@), flag@),
{
    match arg_value(args, flag) {
        Some(value) => parse_u64(value.as_str()),
        None => None,
    }
}

/// The address of the node: the one that is given, or that of the network.
pub open spec fn chosen_url(args: Seq<Seq<char>>, net: Net) -> Seq<char> {
    match flag_value(args, "--rpc-url"@) {
        Some(url) => url,
        None => net.node(),
    }
}

/// The confirmations that a coinbase output needs: those that are given, or 100.
pub open spec fn chosen_maturity(args: Seq<Seq<char>>) -> u64 {
    match flag_number(args, "--coinbase-maturity"@) {
        Some(confirmations) => confirmations,
        None => 100,
    }
}

/// What the command line decides.
#[derive(Debug)]
pub struct Settings {
    pub net: Net,
    pub rpc_url: String,
    pub coinbase_maturity: u64,
}

impl Settings {
    /// Reads the settings. `--rpc-url` and `--coinbase-maturity` override what the network says.
    pub fn from_args(args: &Vec<String>) -> (settings: Settings)
        ensures
            settings.net == selected_net(texts(args@), Net::Mainnet),
            settings.rpc_url@ == (match flag_value(texts(args@), "--rpc-url"@) {
                Some(url) => url,
                None => settings.net.node(),
            }),
            settings.coinbase_maturity == (match flag_number(
                texts(args@),
                "--coinbase-maturity"@,
            ) {
                Some(confirmations) => confirmations,
                None => 100,
            }),
            settings.rpc_url@ == chosen_url(texts(args@), settings.net),
            settings.coinbase_maturity == chosen_maturity(texts(args@)),
    {
        let net = Net::from_args(args);
        let rpc_url = match arg_value(args, "--rpc-url") {
            Some(url) => url,
            None => net.grpc_url(),
        };
        let coinbase_maturity: u64 = match arg_u64(args, "--coinbase-maturity") {
            Some(confirmations) => confirmations,
            None => net.default_coinbase_maturity(),
        };
        Settings { net, rpc_url, coinbase_maturity }
    }
}

/// Why the generator must not run against the node.
#[derive(Debug)]
pub enum NetworkMismatch {
    /// The address belongs to another network.
    Address,
    /// The node, which calls its network this in lower case, belongs to another network.
    Node { network_id: String, net: Net },
}

impl NetworkMismatch {
    /// The message for the user.
    pub fn message(&self) -> (message: String)
        ensures
            message@ == (match self {
                NetworkMismatch::Address => "Address prefix does not match selected network"@,
                NetworkMismatch::Node { network_id, net } => "Connected node \""@ + network_id@
                    + "\" does not look like "@ + net.hint(),
            }),
    {
        match self {
            NetworkMismatch::Address => "Address prefix does not match selected network".to_owned(),
            NetworkMismatch::Node { network_id, net } => {
                let node = "Connected node \"".to_owned().concat(network_id.as_str());
                node.concat("\" does not look like ").concat(net.expected_hint())
            },
        }
    }
}

/// Whether address and node belong to the network, where the node calls its network `network_id`
/// in lower case.
pub open spec fn network_matches(
    network_id: Seq<char>,
    net: Net,
    prefix: AddressPrefix,
) -> bool {
    prefix == net.address_prefix() && contains_text(network_id, net.hint())
}

/// Checks that address and node belong to the network, where the node calls its network
/// `network_id` in lower case.
pub fn check_network(network_id: String, net: Net, address: &Address) -> (verdict: Result<
    (),
    NetworkMismatch,
>)
    ensures
        verdict is Ok <==> network_matches(network_id@, net, address@.prefix),
        verdict matches Err(NetworkMismatch::Address) <==> address@.prefix
            != net.address_prefix(),
        verdict matches Err(NetworkMismatch::Node { network_id: id, net: n }) ==> id@
            == network_id@ && n == net,
{
    match (net, address.prefix) {
        (Net::Mainnet, AddressPrefix::Mainnet)
        | (Net::Testnet10, AddressPrefix::Testnet)
        | (Net::Devnet, AddressPrefix::Devnet) => {},
        _ => return Err(NetworkMismatch::Address),
    }
    if !contains(network_id.as_str(), net.expected_hint()) {
        return Err(NetworkMismatch::Node { network_id, net });
    }
    Ok(())
}

/// Checks that address and node belong to the network, where the node calls its network
/// `network_id` in any case.
pub fn assert_network_matches(network_id: &str, net: Net, address: &Address) -> (verdict: Result<
    (),
    NetworkMismatch,
>)
    ensures
        verdict is Ok <==> network_matches(lowercase_of(network_id@), net, address@.prefix),
        is_ascii_text(network_id@) ==> (verdict is Ok <==> network_matches(
            ascii_lowercase(network_id@),
            net,
            address@.prefix,
        )),
        verdict matches Err(NetworkMismatch::Address) <==> address@.prefix
            != net.address_prefix(),
        verdict matches Err(NetworkMismatch::Node { network_id: id, net: n }) ==> id@
            == lowercase_of(network_id@) && n == net,
        is_ascii_text(network_id@) ==> (verdict matches Err(
            NetworkMismatch::Node { network_id: id, .. },
        ) ==> id@ == ascii_lowercase(network_id@)),
{
    check_network(network_id.to_lowercase(), net, address)
}

/// The names of the networks are in lower case.
proof fn names_are_lower_case()
    ensures
        ascii_lowercase("tn10"@) == "tn10"@,
        ascii_lowercase("testnet10"@) == "testnet10"@,
        ascii_lowercase("devnet"@) == "devnet"@,
{
    reveal_strlit("tn10");
    reveal_strlit("testnet10");
    reveal_strlit("devnet");
    assert(ascii_lowercase("tn10"@) =~= "tn10"@);
    assert(ascii_lowercase("testnet10"@) =~= "testnet10"@);
    assert(ascii_lowercase("devnet"@) =~= "devnet"@);
}

/// A flag may be written apart from its value or joined to it by an equals sign.
pub proof fn flag_forms_agree(flag: Seq<char>, value: Seq<char>, rest: Seq<Seq<char>>)
    ensures
        flag_value(seq![flag, value] + rest, flag) == Some(value),
        flag_value(seq![flag.push('=') + value] + rest, flag) == Some(value),
{
    let joined = flag.push('=') + value;
    assert(joined.len() != flag.len());
    assert(flag.push('=') =~= joined.subrange(0, flag.len() as int + 1));
    assert(joined.skip(flag.len() as int + 1) =~= value);
}

/// `--net` may be written apart from the name of the network or joined to it by an equals sign.
pub proof fn net_forms_agree(name: Seq<char>, rest: Seq<Seq<char>>, net: Net)
    ensures
        selected_net(seq!["--net"@, name] + rest, net) == selected_net(rest, named_net(name, net)),
        selected_net(seq!["--net="@ + name] + rest, net) == selected_net(
            rest,
            named_net(name, net),
        ),
{
    reveal_strlit("--net");
    reveal_strlit("--net=");
    let apart = seq!["--net"@, name] + rest;
    let joined = seq!["--net="@ + name] + rest;
    assert(apart.skip(2) =~= rest);
    assert(joined.skip(1) =~= rest);
    assert(joined[0].len() != "--net"@.len());
    assert("--net="@ =~= joined[0].subrange(0, "--net="@.len() as int));
    assert(joined[0].skip("--net="@.len() as int) =~= name);
}

/// The case of the name of a network does not matter.
pub proof fn net_names_ignore_case(a: Seq<char>, b: Seq<char>, net: Net)
    requires
        ascii_lowercase(a) == ascii_lowercase(b),
    ensures
        named_net(a, net) == named_net(b, net),
{
}

/// Arguments that do not speak of the network leave mainnet selected.
pub proof fn mainnet_is_the_default(args: Seq<Seq<char>>)
    requires
        forall|i: int|
            0 <= i < args.len() ==> #[trigger] args[i] != "--net"@ && !"--net="@.is_prefix_of(
                args[i],
            ),
    ensures
        selected_net(args, Net::Mainnet) == Net::Mainnet,
    decreases args.len(),
{
    if args.len() > 0 {
        mainnet_is_the_default(args.skip(1));
    }
}

/// The address of a key is never refused on the network that it was made for: there the node
/// alone decides.
pub proof fn own_address_matches(secret_key: Seq<u8>, network_id: Seq<char>, net: Net)
    ensures
        network_matches(
            network_id,
            net,
            address_of(secret_key, net.address_prefix()).prefix,
        ) <==> contains_text(network_id, net.hint()),
{
}

/// A node that reports the id of one network is accepted for that network and no other.
pub proof fn networks_are_told_apart(selected: Net, actual: Net)
    ensures
        contains_text(actual.hint(), selected.hint()) <==> selected == actual,
{
    reveal_strlit("mainnet");
    reveal_strlit("testnet-10");
    reveal_strlit("devnet");
    let id = actual.hint();
    let hint = selected.hint();
    if selected == actual {
        assert(id.subrange(0, id.len() as int) =~= id);
        assert(stands_at(id, 0, hint));
    } else if contains_text(id, hint) {
        let at = choose|at: int| 0 <= at && #[trigger] stands_at(id, at, hint);
        assert(id.subrange(at, at + hint.len())[0] == hint[0]);
        assert(id[at] == hint[0]);
        assert(id.subrange(at, at + hint.len())[1] == hint[1]);
        assert(id[at + 1] == hint[1]);
    }
}

/// The texts of the arguments are those of the strings, in order.
pub proof fn texts_are_in_order(args: Seq<String>)
    ensures
        texts(args).len() == args.len(),
        forall|i: int| 0 <= i < args.len() ==> #[trigger] texts(args)[i] == args[i]@,
{
}

/// Two names select testnet-10 and one selects the devnet, in any case; any other text leaves the
/// network as it is.
pub proof fn network_names(name: Seq<char>, net: Net)
    ensures
        ascii_lowercase(name) == "tn10"@ ==> named_net(name, net) == Net::Testnet10,
        ascii_lowercase(name) == "testnet10"@ ==> named_net(name, net) == Net::Testnet10,
        ascii_lowercase(name) == "devnet"@ ==> named_net(name, net) == Net::Devnet,
        ascii_lowercase(name) != "tn10"@ && ascii_lowercase(name) != "testnet10"@
            && ascii_lowercase(name) != "devnet"@ ==> named_net(name, net) == net,
{
    reveal_strlit("tn10");
    reveal_strlit("testnet10");
    reveal_strlit("devnet");
    assert("tn10"@.len() == 4 && "testnet10"@.len() == 9 && "devnet"@.len() == 6);
}

/// An argument that does not speak of the network changes nothing, whatever comes behind it; and
/// neither does a flag without a name at the end.
pub proof fn other_arguments_change_nothing(other: Seq<char>, rest: Seq<Seq<char>>, net: Net)
    requires
        other != "--net"@,
        !"--net="@.is_prefix_of(other),
    ensures
        selected_net(seq![other] + rest, net) == selected_net(rest, net),
        selected_net(Seq::empty(), net) == net,
        selected_net(seq!["--net"@], net) == net,
{
    assert((seq![other] + rest).skip(1) =~= rest);
    assert((seq![other] + rest)[0] == other);
    assert(seq!["--net"@][0] == "--net"@);
}

/// Arguments are read in order: the later ones start from the network that the earlier ones select,
/// unless those end in a flag that takes its name from behind.
pub proof fn arguments_are_read_in_order(
    before: Seq<Seq<char>>,
    after: Seq<Seq<char>>,
    net: Net,
)
    requires
        before.len() == 0 || before.last() != "--net"@,
    ensures
        selected_net(before + after, net) == selected_net(after, selected_net(before, net)),
    decreases before.len(),
{
    let all = before + after;
    if before.len() == 0 {
        assert(all =~= after);
    } else {
        assert(all[0] == before[0]);
        if before[0] == "--net"@ {
            assert(before.len() >= 2);
            assert(all[1] == before[1]);
            assert(all.skip(2) =~= before.skip(2) + after);
            arguments_are_read_in_order(before.skip(2), after, named_net(before[1], net));
        } else if "--net="@.is_prefix_of(before[0]) {
            assert(all.skip(1) =~= before.skip(1) + after);
            arguments_are_read_in_order(
                before.skip(1),
                after,
                named_net(before[0].skip("--net="@.len() as int), net),
            );
        } else {
            assert(all.skip(1) =~= before.skip(1) + after);
            arguments_are_read_in_order(before.skip(1), after, net);
        }
    }
}

/// The name that is given last wins, wherever it stands among other arguments: what comes before
/// matters only where the name is none.
pub proof fn last_name_wins(
    before: Seq<Seq<char>>,
    name: Seq<char>,
    after: Seq<Seq<char>>,
    net: Net,
)
    requires
        before.len() == 0 || before.last() != "--net"@,
        forall|i: int|
            0 <= i < after.len() ==> #[trigger] after[i] != "--net"@ && !"--net="@.is_prefix_of(
                after[i],
            ),
    ensures
        ({
            let apart = selected_net(before + seq!["--net"@, name] + after, net);
            let joined = selected_net(before + seq!["--net="@ + name] + after, net);
            &&& apart == joined
            &&& ascii_lowercase(name) == "tn10"@ || ascii_lowercase(name) == "testnet10"@
                ==> apart == Net::Testnet10
            &&& ascii_lowercase(name) == "devnet"@ ==> apart == Net::Devnet
            &&& ascii_lowercase(name) != "tn10"@ && ascii_lowercase(name) != "testnet10"@
                && ascii_lowercase(name) != "devnet"@ ==> apart == selected_net(before, net)
        }),
{
    let so_far = selected_net(before, net);
    assert(before + seq!["--net"@, name] + after =~= before + (seq!["--net"@, name] + after));
    assert(before + seq!["--net="@ + name] + after =~= before + (seq!["--net="@ + name] + after));
    arguments_are_read_in_order(before, seq!["--net"@, name] + after, net);
    arguments_are_read_in_order(before, seq!["--net="@ + name] + after, net);
    net_forms_agree(name, after, so_far);
    others_keep_the_network(after, named_net(name, so_far));
    network_names(name, so_far);
}

/// Arguments that do not speak of the network keep it.
proof fn others_keep_the_network(args: Seq<Seq<char>>, net: Net)
    requires
        forall|i: int|
            0 <= i < args.len() ==> #[trigger] args[i] != "--net"@ && !"--net="@.is_prefix_of(
                args[i],
            ),
    ensures
        selected_net(args, net) == net,
    decreases args.len(),
{
    if args.len() > 0 {
        others_keep_the_network(args.skip(1), net);
    }
}

/// The first occurrence of a flag gives its value, in either form, whatever else stands before and
/// behind it.
pub proof fn first_flag_counts(
    before: Seq<Seq<char>>,
    flag: Seq<char>,
    value: Seq<char>,
    after: Seq<Seq<char>>,
)
    requires
        forall|i: int|
            0 <= i < before.len() ==> #[trigger] before[i] != flag && !flag.push(
                '=',
            ).is_prefix_of(before[i]),
    ensures
        flag_value(before + seq![flag, value] + after, flag) == Some(value),
        flag_value(before + seq![flag.push('=') + value] + after, flag) == Some(value),
        flag_value(before, flag) is None,
        flag_value(before + seq![flag], flag) is None,
{
    assert(before + seq![flag, value] + after =~= before + (seq![flag, value] + after));
    assert(before + seq![flag.push('=') + value] + after =~= before + (seq![flag.push('=') + value]
        + after));
    flag_forms_agree(flag, value, after);
    others_hold_no_flag(before, flag, seq![flag, value] + after);
    others_hold_no_flag(before, flag, seq![flag.push('=') + value] + after);
    others_hold_no_flag(before, flag, Seq::empty());
    others_hold_no_flag(before, flag, seq![flag]);
    assert(before + Seq::<Seq<char>>::empty() =~= before);
    assert(seq![flag][0] == flag);
}

/// Arguments that do not hold the flag leave it to those behind them.
proof fn others_hold_no_flag(before: Seq<Seq<char>>, flag: Seq<char>, after: Seq<Seq<char>>)
    requires
        forall|i: int|
            0 <= i < before.len() ==> #[trigger] before[i] != flag && !flag.push(
                '=',
            ).is_prefix_of(before[i]),
    ensures
        flag_value(before + after, flag) == flag_value(after, flag),
    decreases before.len(),
{
    if before.len() > 0 {
        others_hold_no_flag(before.skip(1), flag, after);
        assert((before + after)[0] == before[0]);
        assert((before + after).skip(1) =~= before.skip(1) + after);
    } else {
        assert(before + after =~= after);
    }
}

/// The number of a flag is the one that its value spells; a flag without a value has none.
pub proof fn flag_numbers_are_values(args: Seq<Seq<char>>, flag: Seq<char>)
    ensures
        flag_value(args, flag) is None ==> flag_number(args, flag) is None,
        flag_value(args, flag) matches Some(value) ==> flag_number(args, flag) == number(value),
{
}

/// Address and node match exactly when the prefix is that of the network and its id holds the hint.
pub proof fn matching_takes_both(
    before: Seq<char>,
    after: Seq<char>,
    network_id: Seq<char>,
    net: Net,
    prefix: AddressPrefix,
)
    ensures
        network_matches(before + net.hint() + after, net, prefix) <==> prefix
            == net.address_prefix(),
        network_matches(network_id, net, prefix) ==> exists|a: Seq<char>, b: Seq<char>|
            network_id == #[trigger] (a + net.hint() + b),
{
    what_is_inside_is_contained(before, net.hint(), after);
    if network_matches(network_id, net, prefix) {
        let sides = what_is_contained_is_inside(network_id, net.hint());
        assert(network_id == sides.0 + net.hint() + sides.1);
    }
}

/// Each network has a prefix of its own.
pub proof fn prefixes_tell_networks_apart(a: Net, b: Net)
    requires
        a.address_prefix() == b.address_prefix(),
    ensures
        a == b,
{
}

/// The node that is given first is used, in either form, wherever the flag stands; without the flag
/// it is that of the network.
pub proof fn url_is_overridden(
    before: Seq<Seq<char>>,
    url: Seq<char>,
    after: Seq<Seq<char>>,
    net: Net,
)
    requires
        forall|i: int|
            0 <= i < before.len() ==> #[trigger] before[i] != "--rpc-url"@ && !"--rpc-url"@.push(
                '=',
            ).is_prefix_of(before[i]),
    ensures
        chosen_url(before + seq!["--rpc-url"@, url] + after, net) == url,
        chosen_url(before + seq!["--rpc-url"@.push('=') + url] + after, net) == url,
        chosen_url(before, net) == net.node(),
{
    first_flag_counts(before, "--rpc-url"@, url, after);
}

/// The maturity that is given first is used, in either form, wherever the flag stands; without the
/// flag, or with a value that is no number, it is 100.
pub proof fn maturity_is_overridden(
    before: Seq<Seq<char>>,
    value: Seq<char>,
    after: Seq<Seq<char>>,
)
    requires
        forall|i: int|
            0 <= i < before.len() ==> #[trigger] before[i] != "--coinbase-maturity"@
                && !"--coinbase-maturity"@.push('=').is_prefix_of(before[i]),
    ensures
        ({
            let flag = "--coinbase-maturity"@;
            let apart = chosen_maturity(before + seq![flag, value] + after);
            let joined = chosen_maturity(before + seq![flag.push('=') + value] + after);
            &&& apart == joined
            &&& number(value) matches Some(n) ==> apart == n
            &&& number(value) is None ==> apart == 100
        }),
        chosen_maturity(before) == 100,
{
    first_flag_counts(before, "--coinbase-maturity"@, value, after);
}

/// What the networks are called, where their nodes are, and how their addresses begin.
pub proof fn documented_networks()
    ensures
        Net::Mainnet.node() == "grpc://n-mainnet.kaspa.ws:16110"@,
        Net::Testnet10.node() == "grpc://n-testnet-10.kaspa.ws:16210"@,
        Net::Devnet.node() == "grpc://127.0.0.1:16610"@,
        Net::Mainnet.hint() == "mainnet"@,
        Net::Testnet10.hint() == "testnet-10"@,
        Net::Devnet.hint() == "devnet"@,
        Net::Mainnet.address_prefix() == AddressPrefix::Mainnet,
        Net::Testnet10.address_prefix() == AddressPrefix::Testnet,
        Net::Devnet.address_prefix() == AddressPrefix::Devnet,
{
}

} // verus!
