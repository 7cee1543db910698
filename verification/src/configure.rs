//! The candidate configuration, and whether and how it goes live.

use crate::designation;
use crate::limits::DEFAULT_METRICS_PORT;
use crate::metadata;
use crate::metadata::{parse_max_rs, parse_syslog_endpoint, TimeoutConfig};
use crate::portmap;
use crate::portmap::parse_services;
use crate::render;
use crate::render::{DefaultsConfig, GlobalConfig, MetricsConfig, Portmap};
use crate::text;
use vstd::prelude::*;

verus! {

/// A character that parts the addresses of an ACL.
pub open spec fn is_acl_separator(c: char) -> bool {
    c == ',' || c == ' '
}

/// The stretches of `s` between the separators.
pub open spec fn acl_parts(s: Seq<char>) -> Seq<Seq<char>>
    decreases s.len(),
{
    if s.len() == 0 {
        seq![s]
    } else if is_acl_separator(s.last()) {
        acl_parts(s.drop_last()).push(Seq::empty())
    } else {
        let parts = acl_parts(s.drop_last());
        parts.drop_last().push(parts.last().push(s.last()))
    }
}

/// Those of `parts` that are not empty, one on a line.
pub open spec fn lines_of(parts: Seq<Seq<char>>) -> Seq<char>
    decreases parts.len(),
{
    if parts.len() == 0 {
        Seq::empty()
    } else {
        let before = lines_of(parts.drop_last());
        if parts.last().len() == 0 {
            before
        } else if before.len() == 0 {
            parts.last()
        } else {
            before.push('\n') + parts.last()
        }
    }
}

/// The text of the ACL file for the addresses that `s` lists.
pub open spec fn acl_text(s: Seq<char>) -> Seq<char> {
    lines_of(acl_parts(s))
}

/// The text of the ACL file for the addresses that `acl_data` lists: one on a line.
pub fn format_acl(acl_data: &str) -> (out: String)
    ensures
        out@ == acl_text(acl_data@),
{
    let chars = text::chars_of(acl_data);
    let n: usize = chars.len();
    let mut out = String::new();
    let mut start: usize = 0;
    let mut i: usize = 0;
    let ghost mut done: Seq<Seq<char>> = Seq::empty();
    assert(acl_parts(acl_data@.take(0)) =~= done.push(acl_data@.subrange(0, 0)));
    while i < n
        invariant
            chars@ == acl_data@,
            n == acl_data@.len(),
            start <= i <= n,
            acl_parts(acl_data@.take(i as int)) == done.push(
                acl_data@.subrange(start as int, i as int),
            ),
            out@ == lines_of(done),
        decreases n - i,
    {
        let c = chars[i];
        let ghost part = acl_data@.subrange(start as int, i as int);
        assert(acl_data@.take(i + 1).drop_last() == acl_data@.take(i as int));
        assert(done.push(part).drop_last() == done);
        if c == ',' || c == ' ' {
            push_line(&mut out, acl_data.substring_char(start, i));
            start = i + 1;
            proof {
                assert(acl_data@.subrange(i + 1, i + 1) =~= Seq::<char>::empty());
                done = done.push(part);
            }
        } else {
            assert(acl_data@.subrange(start as int, i + 1) =~= part.push(c));
        }
        i += 1;
    }
    let ghost part = acl_data@.subrange(start as int, n as int);
    push_line(&mut out, acl_data.substring_char(start, n));
    assert(acl_data@.take(n as int) == acl_data@);
    assert(done.push(part).drop_last() == done);
    out
}

/// Puts `line`, unless it is empty, on a line of its own behind the text of `out`.
fn push_line(out: &mut String, line: &str)
    ensures
        final(out)@ == (if line@.len() == 0 {
            old(out)@
        } else if old(out)@.len() == 0 {
            line@
        } else {
            old(out)@.push('\n') + line@
        }),
{
    if line.is_empty() {
        return ;
    }
    if !out.as_str().is_empty() {
        out.push('\n');
    }
    out.append(line);
    assert(Seq::<char>::empty() + line@ =~= line@);
}

/// The metrics front end for the port that `port_data` asks for; the default port where that is
/// none that may be used.
pub open spec fn metrics_port(port_data: Seq<char>) -> u16 {
    match designation::port_value(port_data, "metrics"@) {
        Ok(port) => port,
        Err(_) => DEFAULT_METRICS_PORT,
    }
}

/// The metrics front end for the port that `port_data` asks for.
pub fn metrics_config(port_data: &str) -> (config: MetricsConfig)
    ensures
        config.metrics_port == metrics_port(port_data@),
{
    match designation::parse_and_validate_port(port_data, "metrics") {
        Ok(port) => MetricsConfig { metrics_port: port },
        Err(_) => MetricsConfig { metrics_port: DEFAULT_METRICS_PORT },
    }
}

/// What the metadata asks for, each value as it was read, but for the timeouts.
pub struct Metadata {
    pub syslog: String,
    pub timeouts: TimeoutConfig,
    pub portmap: String,
    pub max_rs: String,
    pub metrics_acl: String,
    pub metrics_port: String,
}

/// A configuration file.
pub struct ConfigFile {
    pub name: String,
    pub contents: String,
}

/// What a [`ConfigFile`] says.
#[verifier::ext_equal]
pub struct ConfigFileView {
    pub name: Seq<char>,
    pub contents: Seq<char>,
}

impl View for ConfigFile {
    type V = ConfigFileView;

    open spec fn view(&self) -> ConfigFileView {
        ConfigFileView { name: self.name@, contents: self.contents@ }
    }
}

/// What each of `files` says.
pub open spec fn file_views(files: Seq<ConfigFile>) -> Seq<ConfigFileView> {
    files.map_values(|f: ConfigFile| f@)
}

/// The text of the global section for the syslog endpoint that `syslog` names.
pub open spec fn global_text(syslog: Seq<char>) -> Seq<char> {
    let endpoint = text::trim(syslog);
    render::global_text(if endpoint.len() == 0 { None } else { Some(endpoint) })
}

/// The text of the services file for a port map and a number of backend servers.
pub open spec fn services_text(portmap: Seq<char>, max_rs: Seq<char>) -> Seq<char> {
    render::portmap_text(
        portmap::accepted(portmap::entries(portmap)),
        metadata::max_backends(max_rs),
    )
}

/// The files that serve metrics: none where the ACL lists no address.
pub open spec fn metrics_files(acl: Seq<char>, port: Seq<char>) -> Seq<ConfigFileView> {
    if acl_text(acl).len() == 0 {
        Seq::empty()
    } else {
        seq![
            ConfigFileView { name: "210-metrics_acl.txt"@, contents: acl_text(acl) },
            ConfigFileView {
                name: "200-metrics.cfg"@,
                contents: render::metrics_text(metrics_port(port)),
            },
        ]
    }
}

/// The files that every configuration has, as `m` asks for them, with `resolver` as the resolver
/// section.
pub open spec fn basic_files(m: Metadata, resolver: Seq<char>) -> Seq<ConfigFileView> {
    seq![
        ConfigFileView { name: "000-global.cfg"@, contents: global_text(m.syslog@) },
        ConfigFileView {
            name: "001-defaults.cfg"@,
            contents: (DefaultsConfig { timeouts: m.timeouts }).file_text(),
        },
        ConfigFileView { name: "002-resolver.cfg"@, contents: resolver },
        ConfigFileView {
            name: "100-services.cfg"@,
            contents: services_text(m.portmap@, m.max_rs@),
        },
    ]
}

/// The files of the configuration that `m` asks for, with `resolver` as the resolver section.
pub open spec fn candidate(m: Metadata, resolver: Seq<char>) -> Seq<ConfigFileView> {
    basic_files(m, resolver) + metrics_files(m.metrics_acl@, m.metrics_port@)
}

fn config_file(name: &str, contents: String) -> (f: ConfigFile)
    ensures
        f@ == (ConfigFileView { name: name@, contents: contents@ }),
{
    ConfigFile { name: name.to_owned(), contents }
}

/// The files that serve metrics to the addresses that `acl_data` lists, on the port that
/// `port_data` asks for: none where there is no address.
pub fn acl_files(acl_data: &str, port_data: &str) -> (files: Vec<ConfigFile>)
    ensures
        file_views(files@) == metrics_files(acl_data@, port_data@),
{
    let mut files: Vec<ConfigFile> = Vec::new();
    let acl = format_acl(acl_data);
    if !acl.as_str().is_empty() {
        let metrics = metrics_config(port_data);
        files.push(config_file("210-metrics_acl.txt", acl));
        files.push(config_file("200-metrics.cfg", metrics.render().unwrap()));
    }
    assert(file_views(files@) =~= metrics_files(acl_data@, port_data@));
    files
}

/// The files of the configuration that `m` asks for, in the order in which they are written, with
/// `resolver` as the resolver section. Entries of the port map that designate no service are left
/// out.
pub fn candidate_files(m: &Metadata, resolver: &str) -> (files: Vec<ConfigFile>)
    ensures
        file_views(files@) == candidate(*m, resolver@),
{
    let global = GlobalConfig { syslog_endpoint: parse_syslog_endpoint(m.syslog.as_str()) };
    let defaults = DefaultsConfig { timeouts: m.timeouts };
    let (services, _) = parse_services(m.portmap.as_str());
    let services = Portmap { services, max_backends: parse_max_rs(m.max_rs.as_str()) };
    let mut files: Vec<ConfigFile> = Vec::new();
    files.push(config_file("000-global.cfg", global.render().unwrap()));
    files.push(config_file("001-defaults.cfg", defaults.render().unwrap()));
    files.push(config_file("002-resolver.cfg", resolver.to_owned()));
    files.push(config_file("100-services.cfg", services.render().unwrap()));
    let mut metrics = acl_files(m.metrics_acl.as_str(), m.metrics_port.as_str());
    let ghost before = files@;
    let ghost behind = metrics@;
    files.append(&mut metrics);
    assert(file_views(files@) =~= file_views(before) + file_views(behind));
    assert(file_views(files@) =~= candidate(*m, resolver@));
    files
}

/// What came of a step of going live.
#[derive(Clone, Copy, Debug, PartialEq, Eq, Structural)]
pub enum ConfigureEvent {
    /// The candidate was compared with the live configuration.
    Compared { identical: bool },
    /// HAProxy judged the candidate.
    Validated { valid: bool },
}

/// The next step of going live.
#[derive(Clone, Copy, Debug, PartialEq, Eq, Structural)]
pub enum ConfigureAction {
    /// Leave the live configuration: the candidate says the same.
    Unchanged,
    /// Have HAProxy judge the candidate.
    Validate,
    /// Put the candidate in the place of the live configuration.
    Apply,
    /// Leave the live configuration: the candidate is invalid.
    Reject,
}

/// The next step of going live, after what came of the last one.
pub fn configure_step(event: ConfigureEvent) -> (action: ConfigureAction)
    ensures
        action == (match event {
            ConfigureEvent::Compared { identical: true } => ConfigureAction::Unchanged,
            ConfigureEvent::Compared { identical: false } => ConfigureAction::Validate,
            ConfigureEvent::Validated { valid: true } => ConfigureAction::Apply,
            ConfigureEvent::Validated { valid: false } => ConfigureAction::Reject,
        }),
{
    match event {
        ConfigureEvent::Compared { identical } => if identical {
            ConfigureAction::Unchanged
        } else {
            ConfigureAction::Validate
        },
        ConfigureEvent::Validated { valid } => if valid {
            ConfigureAction::Apply
        } else {
            ConfigureAction::Reject
        },
    }
}

/// The characters of each of `names`.
pub open spec fn texts(names: Seq<String>) -> Seq<Seq<char>> {
    names.map_values(|s: String| s@)
}

/// The positions in `live` of the names that are not among `kept`, in ascending order.
pub open spec fn stale_positions(live: Seq<Seq<char>>, kept: Seq<Seq<char>>) -> Seq<usize>
    decreases live.len(),
{
    if live.len() == 0 {
        Seq::empty()
    } else {
        let before = stale_positions(live.drop_last(), kept);
        if kept.contains(live.last()) {
            before
        } else {
            before.push((live.len() - 1) as usize)
        }
    }
}

/// Whether `name` is among `names`.
fn is_among(name: &String, names: &Vec<String>) -> (b: bool)
    ensures
        b == texts(names@).contains(name@),
{
    let mut i: usize = 0;
    while i < names.len()
        invariant
            i <= names@.len(),
            forall|j: int| 0 <= j < i ==> texts(names@)[j] != name@,
        decreases names@.len() - i,
    {
        if text::same_text(names[i].as_str(), name.as_str()) {
            assert(texts(names@)[i as int] == name@);
            return true;
        }
        i += 1;
    }
    false
}

/// The files to remove from the live configuration: the positions in `live` of the names that no
/// file of the candidate has.
pub fn stale_files(live: &Vec<String>, candidate: &Vec<String>) -> (stale: Vec<usize>)
    ensures
        stale@ == stale_positions(texts(live@), texts(candidate@)),
{
    let mut stale: Vec<usize> = Vec::new();
    let n: usize = live.len();
    let ghost names = texts(live@);
    let mut i: usize = 0;
    while i < n
        invariant
            n == live@.len(),
            i <= n,
            names == texts(live@),
            stale@ == stale_positions(names.take(i as int), texts(candidate@)),
        decreases n - i,
    {
        assert(names.take(i + 1).drop_last() == names.take(i as int));
        if !is_among(&live[i], candidate) {
            stale.push(i);
        }
        i += 1;
    }
    assert(names.take(n as int) == names);
    stale
}

/// What HAProxy wrote when it judged a configuration.
pub open spec fn report_text(stdout: Seq<u8>, stderr: Seq<u8>) -> Seq<char> {
    "stdout: "@ + metadata::lossy_text(stdout) + "\nstderr: "@ + metadata::lossy_text(stderr)
}

/// What HAProxy wrote when it judged a configuration.
pub fn validation_report(stdout: &Vec<u8>, stderr: &Vec<u8>) -> (report: String)
    ensures
        report@ == report_text(stdout@, stderr@),
{
    let mut report = "stdout: ".to_owned();
    report.append(metadata::from_utf8_lossy(stdout.as_slice()).as_str());
    report.append("\nstderr: ");
    report.append(metadata::from_utf8_lossy(stderr.as_slice()).as_str());
    report
}

/// What to do about the symbolic link to a certificate.
#[derive(Clone, Copy, Debug, PartialEq, Eq, Structural)]
pub enum SymlinkPlan {
    /// Leave what is there.
    Keep,
    /// Make the link, and before it, if asked for, the directory that holds it.
    Link { create_parent: bool },
}

/// What to do about a link, by what stands in its place and, where its path has a parent, by
/// whether that exists.
pub fn plan_cert_symlink(
    target_exists: bool,
    target_is_symlink: bool,
    parent_exists: Option<bool>,
) -> (plan: SymlinkPlan)
    ensures
        plan == (if target_exists || target_is_symlink {
            SymlinkPlan::Keep
        } else {
            SymlinkPlan::Link { create_parent: parent_exists == Some(false) }
        }),
{
    if target_exists || target_is_symlink {
        return SymlinkPlan::Keep;
    }
    match parent_exists {
        Some(exists) => SymlinkPlan::Link { create_parent: !exists },
        None => SymlinkPlan::Link { create_parent: false },
    }
}

/// A text without separators is one part.
pub proof fn lemma_one_part(s: Seq<char>)
    requires
        forall|i: int| 0 <= i < s.len() ==> !is_acl_separator(#[trigger] s[i]),
    ensures
        acl_parts(s) == seq![s],
    decreases s.len(),
{
    if s.len() > 0 {
        let front = s.drop_last();
        assert forall|i: int| 0 <= i < front.len() implies !is_acl_separator(
            #[trigger] front[i],
        ) by {
            assert(front[i] == s[i]);
        }
        lemma_one_part(front);
        assert(s.last() == s[s.len() - 1]);
        assert(front.push(s.last()) =~= s);
        assert(seq![front].drop_last().push(s) =~= seq![s]);
    }
}

/// There is always a last part, and none holds a separator.
proof fn lemma_parts(s: Seq<char>)
    ensures
        acl_parts(s).len() > 0,
        forall|i: int, j: int|
            0 <= i < acl_parts(s).len() && 0 <= j < acl_parts(s)[i].len() ==> !is_acl_separator(
                #[trigger] acl_parts(s)[i][j],
            ),
    decreases s.len(),
{
    if s.len() > 0 {
        let parts = acl_parts(s.drop_last());
        lemma_parts(s.drop_last());
        assert forall|i: int, j: int|
            0 <= i < acl_parts(s).len() && 0 <= j < acl_parts(s)[i].len() implies !is_acl_separator(
            #[trigger] acl_parts(s)[i][j],
        ) by {
            if i < parts.len() - 1 || is_acl_separator(s.last()) {
                if i < parts.len() {
                    assert(acl_parts(s)[i] == parts[i]);
                    assert(!is_acl_separator(parts[i][j]));
                }
            } else if j < parts.last().len() {
                assert(acl_parts(s)[i][j] == parts[i][j]);
            }
        }
    }
}

/// Lines hold no separator where the parts hold none.
proof fn lemma_lines(parts: Seq<Seq<char>>)
    requires
        forall|i: int, j: int|
            0 <= i < parts.len() && 0 <= j < parts[i].len() ==> !is_acl_separator(
                #[trigger] parts[i][j],
            ),
    ensures
        forall|k: int|
            0 <= k < lines_of(parts).len() ==> !is_acl_separator(#[trigger] lines_of(parts)[k]),
    decreases parts.len(),
{
    if parts.len() > 0 {
        let front = parts.drop_last();
        assert forall|i: int, j: int|
            0 <= i < front.len() && 0 <= j < front[i].len() implies !is_acl_separator(
            #[trigger] front[i][j],
        ) by {
            assert(!is_acl_separator(parts[i][j]));
        }
        lemma_lines(front);
        let before = lines_of(front);
        let last = parts.last();
        assert forall|k: int| 0 <= k < last.len() implies !is_acl_separator(#[trigger] last[k]) by {
            assert(!is_acl_separator(parts[parts.len() - 1][k]));
        }
        assert forall|k: int| 0 <= k < lines_of(parts).len() implies !is_acl_separator(
            #[trigger] lines_of(parts)[k],
        ) by {
            if last.len() > 0 && before.len() > 0 {
                if k < before.len() {
                    assert(lines_of(parts)[k] == before[k]);
                } else if k > before.len() {
                    assert(lines_of(parts)[k] == last[k - before.len() - 1]);
                }
            }
        }
    }
}

/// The ACL file holds no separator, so that formatting its text again leaves it as it is.
pub proof fn acl_text_is_stable(s: Seq<char>)
    ensures
        forall|k: int| 0 <= k < acl_text(s).len() ==> !is_acl_separator(#[trigger] acl_text(s)[k]),
        acl_text(acl_text(s)) == acl_text(s),
{
    lemma_parts(s);
    lemma_lines(acl_parts(s));
    lemma_one_part(acl_text(s));
    lemma_one_line(acl_text(s));
}

/// One part makes one line.
pub proof fn lemma_one_line(part: Seq<char>)
    ensures
        lines_of(seq![part]) == part,
{
    assert(seq![part].drop_last() =~= Seq::<Seq<char>>::empty());
    assert(lines_of(Seq::<Seq<char>>::empty()) =~= Seq::<char>::empty());
}

/// `addresses` with `c` between them.
pub open spec fn joined(addresses: Seq<Seq<char>>, c: char) -> Seq<char>
    decreases addresses.len(),
{
    if addresses.len() == 0 {
        Seq::empty()
    } else if addresses.len() == 1 {
        addresses[0]
    } else {
        joined(addresses.drop_last(), c) + seq![c] + addresses.last()
    }
}

/// Behind a separator, parts begin anew.
pub proof fn lemma_parted(a: Seq<char>, c: char, b: Seq<char>)
    requires
        is_acl_separator(c),
    ensures
        acl_parts(a + seq![c] + b) == acl_parts(a) + acl_parts(b),
    decreases b.len(),
{
    let whole = a + seq![c] + b;
    lemma_parts(b);
    if b.len() == 0 {
        assert(b =~= Seq::empty());
        assert(whole.drop_last() =~= a);
        assert(acl_parts(a).push(Seq::empty()) =~= acl_parts(a) + acl_parts(b));
    } else {
        let parts = acl_parts(b.drop_last());
        lemma_parted(a, c, b.drop_last());
        lemma_parts(b.drop_last());
        assert(whole.drop_last() =~= a + seq![c] + b.drop_last());
        assert(whole.last() == b.last());
        assert((acl_parts(a) + parts).last() == parts.last());
        assert((acl_parts(a) + parts).drop_last() =~= acl_parts(a) + parts.drop_last());
        assert(acl_parts(whole) =~= acl_parts(a) + acl_parts(b));
    }
}

/// Each address of a list that a separator parts stands on a line of its own, in order.
pub proof fn acl_puts_each_address_on_a_line(addresses: Seq<Seq<char>>, c: char)
    requires
        is_acl_separator(c),
        forall|i: int| 0 <= i < addresses.len() ==> (#[trigger] addresses[i]).len() > 0,
        forall|i: int, j: int|
            0 <= i < addresses.len() && 0 <= j < addresses[i].len() ==> !is_acl_separator(
                #[trigger] addresses[i][j],
            ),
    ensures
        acl_text(joined(addresses, c)) == joined(addresses, '\n'),
    decreases addresses.len(),
{
    if addresses.len() == 0 {
        lemma_one_part(Seq::empty());
        lemma_one_line(Seq::empty());
    } else {
        let last = addresses.last();
        assert(last == addresses[addresses.len() - 1]);
        assert forall|j: int| 0 <= j < last.len() implies !is_acl_separator(#[trigger] last[j]) by {
            assert(!is_acl_separator(addresses[addresses.len() - 1][j]));
        }
        lemma_one_part(last);
        if addresses.len() == 1 {
            lemma_one_line(last);
        } else {
            let front = addresses.drop_last();
            assert forall|i: int, j: int|
                0 <= i < front.len() && 0 <= j < front[i].len() implies !is_acl_separator(
                #[trigger] front[i][j],
            ) by {
                assert(!is_acl_separator(addresses[i][j]));
            }
            assert forall|i: int| 0 <= i < front.len() implies (#[trigger] front[i]).len() > 0 by {
                assert(addresses[i].len() > 0);
            }
            acl_puts_each_address_on_a_line(front, c);
            let before = joined(front, c);
            lemma_parted(before, c, last);
            let parts = acl_parts(before) + seq![last];
            assert(parts.drop_last() =~= acl_parts(before));
            lemma_joined_nonempty(front, '\n');
            assert(joined(front, '\n').push('\n') + last =~= joined(addresses, '\n'));
        }
    }
}

proof fn lemma_joined_nonempty(addresses: Seq<Seq<char>>, c: char)
    requires
        addresses.len() > 0,
        forall|i: int| 0 <= i < addresses.len() ==> (#[trigger] addresses[i]).len() > 0,
    ensures
        joined(addresses, c).len() > 0,
{
    assert(addresses[0].len() > 0);
    assert(addresses[addresses.len() - 1] == addresses.last());
}

/// No two files of a candidate have one name.
pub proof fn candidate_names_are_distinct(m: Metadata, resolver: Seq<char>, i: int, j: int)
    requires
        0 <= i < j < candidate(m, resolver).len(),
    ensures
        candidate(m, resolver)[i].name != candidate(m, resolver)[j].name,
{
    reveal_strlit("000-global.cfg");
    reveal_strlit("001-defaults.cfg");
    reveal_strlit("002-resolver.cfg");
    reveal_strlit("100-services.cfg");
    reveal_strlit("210-metrics_acl.txt");
    reveal_strlit("200-metrics.cfg");
    assert("000-global.cfg"@[2] == '0' && "001-defaults.cfg"@[2] == '1');
    assert("000-global.cfg"@[0] == '0' && "001-defaults.cfg"@[0] == '0');
    assert("002-resolver.cfg"@[2] == '2' && "002-resolver.cfg"@[0] == '0');
    assert("100-services.cfg"@[0] == '1');
    assert("210-metrics_acl.txt"@[0] == '2' && "210-metrics_acl.txt"@[1] == '1');
    assert("200-metrics.cfg"@[0] == '2' && "200-metrics.cfg"@[1] == '0');
}

/// The names of `files`.
pub open spec fn names_of(files: Seq<ConfigFileView>) -> Seq<Seq<char>> {
    files.map_values(|f: ConfigFileView| f.name)
}

/// The contents of a directory after `files` are written into it.
pub open spec fn written(
    directory: Map<Seq<char>, Seq<char>>,
    files: Seq<ConfigFileView>,
) -> Map<Seq<char>, Seq<char>>
    decreases files.len(),
{
    if files.len() == 0 {
        directory
    } else {
        written(directory, files.drop_last()).insert(files.last().name, files.last().contents)
    }
}

/// The contents of a directory after the files that stand in `names` at `positions` are removed.
pub open spec fn removed(
    directory: Map<Seq<char>, Seq<char>>,
    names: Seq<Seq<char>>,
    positions: Seq<usize>,
) -> Map<Seq<char>, Seq<char>>
    decreases positions.len(),
{
    if positions.len() == 0 {
        directory
    } else {
        removed(directory, names, positions.drop_last()).remove(names[positions.last() as int])
    }
}

/// A name is there after writing where it was there before or is that of a file; and what a file
/// holds does not depend on what was there before.
proof fn lemma_written(
    directory: Map<Seq<char>, Seq<char>>,
    files: Seq<ConfigFileView>,
    name: Seq<char>,
)
    ensures
        written(directory, files).dom().contains(name) <==> directory.dom().contains(name)
            || names_of(files).contains(name),
        names_of(files).contains(name) ==> written(directory, files)[name] == written(
            Map::empty(),
            files,
        )[name],
    decreases files.len(),
{
    let all = names_of(files);
    if files.len() > 0 {
        let front = files.drop_last();
        let last = files.last().name;
        lemma_written(directory, front, name);
        assert(all =~= names_of(front).push(last));
        assert(all[all.len() - 1] == last);
        if names_of(front).contains(name) {
            let i = choose|i: int| 0 <= i < front.len() && names_of(front)[i] == name;
            assert(all[i] == name);
        } else if all.contains(name) {
            let i = choose|i: int| 0 <= i < all.len() && all[i] == name;
            assert(i < front.len() ==> names_of(front)[i] == name);
        }
        assert(written(directory, files) == written(directory, front).insert(
            last,
            files.last().contents,
        ));
    } else {
        assert(all.len() == 0);
    }
}

/// After the first `n` of `names` are gone through, a name is there where it was there before and
/// was not gone through as stale; and what is left holds what it held.
proof fn lemma_removed(
    directory: Map<Seq<char>, Seq<char>>,
    names: Seq<Seq<char>>,
    kept: Seq<Seq<char>>,
    n: int,
)
    requires
        0 <= n <= names.len() <= usize::MAX,
    ensures
        ({
            let left = removed(directory, names, stale_positions(names.take(n), kept));
            forall|name: Seq<char>| #[trigger]
                left.dom().contains(name) <==> directory.dom().contains(name) && !(names.take(
                    n,
                ).contains(name) && !kept.contains(name))
        }),
        ({
            let left = removed(directory, names, stale_positions(names.take(n), kept));
            forall|name: Seq<char>|
                left.dom().contains(name) ==> #[trigger] left[name] == directory[name]
        }),
    decreases n,
{
    if n > 0 {
        lemma_removed(directory, names, kept, n - 1);
        let front = names.take(n - 1);
        assert(names.take(n).drop_last() =~= front);
        let name = names[n - 1];
        let positions = stale_positions(names.take(n), kept);
        let before = stale_positions(front, kept);
        let left_before = removed(directory, names, before);
        if kept.contains(name) {
            assert(positions == before);
        } else {
            assert(names.take(n).last() == name);
            assert(positions == before.push((n - 1) as usize));
            assert(positions.drop_last() =~= before);
            assert(removed(directory, names, positions) == left_before.remove(name));
        }
        assert forall|x: Seq<char>| #[trigger]
            names.take(n).contains(x) <==> front.contains(x) || x == name by {
            if front.contains(x) {
                let i = choose|i: int| 0 <= i < front.len() && front[i] == x;
                assert(names.take(n)[i] == x);
            }
            if x == name {
                assert(names.take(n)[n - 1] == x);
            }
            if names.take(n).contains(x) && x != name {
                let i = choose|i: int| 0 <= i < n && names.take(n)[i] == x;
                assert(front[i] == x);
            }
        }
    } else {
        assert(names.take(0).len() == 0);
    }
}

/// Going live leaves the candidate and nothing else: where its files are written over those of
/// `live`, and then those that are stale are removed, what is left is what writing them into an
/// empty directory makes.
pub proof fn going_live_leaves_the_candidate(
    live: Map<Seq<char>, Seq<char>>,
    files: Seq<ConfigFileView>,
    names: Seq<Seq<char>>,
)
    requires
        names.len() <= usize::MAX,
        forall|name: Seq<char>| #[trigger]
            names.contains(name) <==> written(live, files).dom().contains(name),
    ensures
        removed(written(live, files), names, stale_positions(names, names_of(files))) == written(
            Map::empty(),
            files,
        ),
{
    let kept = names_of(files);
    let after = written(live, files);
    let left = removed(after, names, stale_positions(names, kept));
    let fresh = written(Map::empty(), files);
    lemma_removed(after, names, kept, names.len() as int);
    assert(names.take(names.len() as int) =~= names);
    assert forall|name: Seq<char>| left.dom().contains(name) == fresh.dom().contains(name)
        && (fresh.dom().contains(name) ==> #[trigger] left[name] == fresh[name]) by {
        lemma_written(live, files, name);
        lemma_written(Map::empty(), files, name);
        assert(names.contains(name) <==> after.dom().contains(name));
    }
    assert forall|name: Seq<char>| left.dom().contains(name) == fresh.dom().contains(name) by {
        assert(left[name] == left[name]);
    }
    assert(left.dom() =~= fresh.dom());
    assert(left =~= fresh);
}

} // verus!
