//! Server and node-group records, and the choice of the ones a run uses.
use vstd::prelude::*;

verus! {

/// Name of this program's directory under the user's configuration directory.
pub const PACKAGE_NAME: &'static str = "beelog";

/// File name of the configuration file.
pub const CONFIG_FILE_NAME: &'static str = "config.toml";

/// File name of the command history.
pub const HISTORY_FILE_NAME: &'static str = "history.txt";

/// Command-line choices: a server and a node group by name, each optional.
pub struct Args {
    pub server: Option<String>,
    pub node_group: Option<String>,
}

/// A bastion host to connect through.
pub struct ServerInfo {
    pub name: String,
    pub host: String,
    pub port: u16,
    pub user: String,
    pub key_path: String,
    /// Base32 shared secret of the second factor, if one is configured.
    pub secret_code: Option<String>,
}

/// A named list of target nodes, as the bastion's menu knows them.
pub struct NodeGroup {
    pub group: String,
    pub nodes: Vec<String>,
}

/// The server section of the configuration file.
pub struct ServerConfig {
    pub default_server: String,
    pub default_node_group: String,
    pub servers: Vec<ServerInfo>,
    pub node_groups: Vec<NodeGroup>,
}

/// The configuration file.
pub struct Config {
    pub server: ServerConfig,
}

/// Why no server record or node group could be chosen.
#[derive(Debug)]
pub enum ConfigError {
    /// No server has the requested name.
    ServerNotFound(String),
    /// No node group has the requested name.
    NodeGroupNotFound(String),
}

/// The path of a file in this program's configuration directory under a home directory.
pub open spec fn config_file_in(home_dir: Seq<char>, file: Seq<char>) -> Seq<char> {
    home_dir + "/.config/"@ + PACKAGE_NAME@ + "/"@ + file
}

/// The path of `file` in this program's configuration directory under `home_dir`.
pub fn config_path(home_dir: &str, file: &str) -> (r: String)
    ensures
        r@ == config_file_in(home_dir@, file@),
{
    let mut s = String::from_str(home_dir);
    s.append("/.config/");
    s.append(PACKAGE_NAME);
    s.append("/");
    s.append(file);
    s
}

/// The path of the command history under a home directory.
pub fn get_history_path(home_dir: &str) -> (r: String)
    ensures
        r@ == config_file_in(home_dir@, HISTORY_FILE_NAME@),
{
    config_path(home_dir, HISTORY_FILE_NAME)
}

/// The name asked for, or the default.
pub open spec fn chosen_name(arg: Option<String>, default: String) -> Seq<char> {
    match arg {
        Some(n) => n@,
        None => default@,
    }
}

/// The first server named `name`, by position.
pub open spec fn first_server(servers: Seq<ServerInfo>, name: Seq<char>, i: int) -> bool {
    &&& 0 <= i < servers.len()
    &&& servers[i].name@ == name
    &&& forall|j: int| 0 <= j < i ==> (#[trigger] servers[j]).name@ != name
}

/// The last node group named `name`, by position.
pub open spec fn last_group(groups: Seq<NodeGroup>, name: Seq<char>, i: int) -> bool {
    &&& 0 <= i < groups.len()
    &&& groups[i].group@ == name
    &&& forall|j: int| i < j < groups.len() ==> (#[trigger] groups[j]).group@ != name
}

/// The name asked for on the command line, or the configured default.
fn choose_name(arg: &Option<String>, default: &String) -> (r: String)
    ensures
        r@ == chosen_name(*arg, *default),
{
    match arg {
        Some(n) => n.clone(),
        None => default.clone(),
    }
}

/// Chooses the server record and the node group of a run: the first server
/// with the requested name (or the default server) and the last node group
/// with the requested name (or the default group).
pub fn read_server_config(args: &Args, config: Config) -> (r: Result<(ServerInfo, NodeGroup), ConfigError>)
    ensures
        ({
            let sc = config.server;
            let sname = chosen_name(args.server, sc.default_server);
            let gname = chosen_name(args.node_group, sc.default_node_group);
            match r {
                Ok((s, g)) => (exists|i: int| first_server(sc.servers@, sname, i) && s == sc.servers@[i])
                    && (exists|i: int| last_group(sc.node_groups@, gname, i) && g == sc.node_groups@[i]),
                Err(ConfigError::ServerNotFound(n)) => n@ == sname && forall|i: int|
                    0 <= i < sc.servers@.len() ==> (#[trigger] sc.servers@[i]).name@ != sname,
                Err(ConfigError::NodeGroupNotFound(n)) => n@ == gname && (exists|i: int|
                    0 <= i < sc.servers@.len() && (#[trigger] sc.servers@[i]).name@ == sname) && forall|i: int|
                    0 <= i < sc.node_groups@.len() ==> (#[trigger] sc.node_groups@[i]).group@ != gname,
            }
        }),
{
    let sc = config.server;
    let sname = choose_name(&args.server, &sc.default_server);
    let mut found: Option<usize> = None;
    let mut i: usize = 0;
    while i < sc.servers.len()
        invariant
            i <= sc.servers@.len(),
            found is None ==> forall|j: int| 0 <= j < i ==> (#[trigger] sc.servers@[j]).name@ != sname@,
            found matches Some(k) ==> first_server(sc.servers@, sname@, k as int),
        decreases sc.servers@.len() - i,
    {
        if found.is_none() && sc.servers[i].name == sname {
            found = Some(i);
        }
        i = i + 1;
    }
    let si = match found {
        Some(k) => k,
        None => {
            return Err(ConfigError::ServerNotFound(sname));
        },
    };
    let gname = choose_name(&args.node_group, &sc.default_node_group);
    let mut gfound: Option<usize> = None;
    let mut i: usize = 0;
    while i < sc.node_groups.len()
        invariant
            i <= sc.node_groups@.len(),
            gfound is None ==> forall|j: int| 0 <= j < i ==> (#[trigger] sc.node_groups@[j]).group@ != gname@,
            gfound matches Some(k) ==> k < i && sc.node_groups@[k as int].group@ == gname@ && forall|j: int|
                k < j < i ==> (#[trigger] sc.node_groups@[j]).group@ != gname@,
        decreases sc.node_groups@.len() - i,
    {
        if sc.node_groups[i].group == gname {
            gfound = Some(i);
        }
        i = i + 1;
    }
    match gfound {
        Some(k) => {
            let mut servers = sc.servers;
            let mut groups = sc.node_groups;
            let server = servers.remove(si);
            let group = groups.remove(k);
            Ok((server, group))
        },
        None => Err(ConfigError::NodeGroupNotFound(gname)),
    }
}

} // verus!
