use crate::config::Config;
use crate::models::permission::{Access, Permission, PermissionView};
use crate::traits::auth::Auth;
use crate::traits::authenticate::Authenticate;
use crate::traits::authorize::Authorize;
use crate::text::{find_char, first_index, lemma_first_index_bound, substring};
use vstd::prelude::*;

verus! {

/// The values of a list of strings.
pub open spec fn strings_view(v: Seq<String>) -> Seq<Seq<char>> {
    v.map_values(|s: String| s@)
}

/// A copy of a list of strings, in the same order.
pub fn copy_strings(v: &Vec<String>) -> (r: Vec<String>)
    ensures
        strings_view(r@) == strings_view(v@),
{
    let mut out: Vec<String> = Vec::new();
    let mut i: usize = 0;
    while i < v.len()
        invariant
            i <= v.len(),
            out.len() == i,
            forall|j: int| 0 <= j < i ==> #[trigger] out@[j]@ == v@[j]@,
        decreases v.len() - i,
    {
        out.push(v[i].clone());
        i = i + 1;
    }
    assert(strings_view(out@) =~= strings_view(v@));
    out
}

/// One attribute of a directory entry, with all of its values.
pub struct Attribute {
    pub name: String,
    pub values: Vec<String>,
}

pub struct AttributeView {
    pub name: Seq<char>,
    pub values: Seq<Seq<char>>,
}

impl View for Attribute {
    type V = AttributeView;

    open spec fn view(&self) -> AttributeView {
        AttributeView { name: self.name@, values: strings_view(self.values@) }
    }
}

/// An entry that a directory search returned: its distinguished name and its attributes.
pub struct DirectoryEntry {
    pub dn: String,
    pub attrs: Vec<Attribute>,
}

pub struct DirectoryEntryView {
    pub dn: Seq<char>,
    pub attrs: Seq<AttributeView>,
}

impl View for DirectoryEntry {
    type V = DirectoryEntryView;

    open spec fn view(&self) -> DirectoryEntryView {
        DirectoryEntryView { dn: self.dn@, attrs: self.attrs@.map_values(|a: Attribute| a@) }
    }
}

pub open spec fn entries_view(es: Seq<DirectoryEntry>) -> Seq<DirectoryEntryView> {
    es.map_values(|e: DirectoryEntry| e@)
}

/// The name of the attribute that lists the groups an entry belongs to.
pub open spec fn member_of_name() -> Seq<char> {
    seq!['m', 'e', 'm', 'b', 'e', 'r', 'O', 'f']
}

/// The position of the first group-membership attribute, or the number of attributes.
pub open spec fn member_of_index(attrs: Seq<AttributeView>) -> nat
    decreases attrs.len(),
{
    if attrs.len() == 0 {
        0
    } else if attrs[0].name == member_of_name() {
        0
    } else {
        1 + member_of_index(attrs.skip(1))
    }
}

/// The groups an entry belongs to: the values of its first group-membership attribute,
/// none where it has no such attribute.
pub open spec fn member_of_values(attrs: Seq<AttributeView>) -> Seq<Seq<char>> {
    let k = member_of_index(attrs);
    if k < attrs.len() {
        attrs[k as int].values
    } else {
        Seq::empty()
    }
}

proof fn lemma_member_of_index(attrs: Seq<AttributeView>, i: int)
    requires
        0 <= i <= attrs.len(),
        forall|j: int| 0 <= j < i ==> attrs[j].name != member_of_name(),
        i == attrs.len() || attrs[i].name == member_of_name(),
    ensures
        member_of_index(attrs) == i,
    decreases i,
{
    if i > 0 {
        assert forall|j: int| 0 <= j < i - 1 implies attrs.skip(1)[j].name != member_of_name() by {
            assert(attrs[j + 1].name != member_of_name());
        }
        lemma_member_of_index(attrs.skip(1), i - 1);
    }
}

/// The first relative name of a distinguished name: everything before the first comma.
pub open spec fn first_rdn(dn: Seq<char>) -> Seq<char> {
    dn.take(first_index(dn, ',') as int)
}

/// The value of a relative name `type=value`: what stands between its first `=` and the
/// next one; empty where it holds no `=`.
pub open spec fn rdn_value(rdn: Seq<char>) -> Seq<char> {
    let e = first_index(rdn, '=') as int;
    if e < rdn.len() {
        let rest = rdn.skip(e + 1);
        rest.take(first_index(rest, '=') as int)
    } else {
        Seq::empty()
    }
}

/// The name of the group that a membership value designates (`CN=Engineers,OU=Groups,...`
/// gives `Engineers`).
pub open spec fn group_name(group_dn: Seq<char>) -> Seq<char> {
    rdn_value(first_rdn(group_dn))
}

/// The permission granted by membership in `group_dn`, found in the entry `entry_dn`.
pub open spec fn group_permission(entry_dn: Seq<char>, group_dn: Seq<char>) -> PermissionView {
    PermissionView { name: group_name(group_dn), description: entry_dn, access_type: Access::READ }
}

/// The permissions of one entry: one for each group it belongs to, in order.
pub open spec fn entry_permissions(e: DirectoryEntryView) -> Seq<PermissionView> {
    member_of_values(e.attrs).map_values(|g: Seq<char>| group_permission(e.dn, g))
}

/// The permissions of a list of entries, entry after entry.
pub open spec fn permissions_of(es: Seq<DirectoryEntryView>) -> Seq<PermissionView>
    decreases es.len(),
{
    if es.len() == 0 {
        Seq::empty()
    } else {
        permissions_of(es.drop_last()) + entry_permissions(es.last())
    }
}

/// The number of group-membership values over all entries.
pub open spec fn membership_count(es: Seq<DirectoryEntryView>) -> nat
    decreases es.len(),
{
    if es.len() == 0 {
        0
    } else {
        membership_count(es.drop_last()) + member_of_values(es.last().attrs).len()
    }
}

/// Each group-membership value of each entry gives exactly one permission: none is dropped
/// and none is merged with another.
pub proof fn lemma_one_permission_per_membership(es: Seq<DirectoryEntryView>)
    ensures
        permissions_of(es).len() == membership_count(es),
    decreases es.len(),
{
    if es.len() > 0 {
        lemma_one_permission_per_membership(es.drop_last());
    }
}

/// The permissions resolved from a search reply number exactly the group-membership values
/// of the entries it returned, and a search that failed, in transport or in the directory,
/// yields none, just as one that found nothing.
pub proof fn lemma_resolved_permission_count(reply: SearchReply)
    ensures
        permissions_of(reply_entries(reply)).len() == membership_count(reply_entries(reply)),
        !(reply matches SearchReply::Completed { rc, .. } && rc == 0) ==> permissions_of(
            reply_entries(reply),
        ).len() == 0,
{
    lemma_one_permission_per_membership(reply_entries(reply));
}

/// Extracts the name of the group that a membership value designates.
pub fn parse_group_name(group_dn: &str) -> (r: String)
    ensures
        r@ == group_name(group_dn@),
{
    let comma = find_char(group_dn, ',');
    proof {
        lemma_first_index_bound(group_dn@, ',');
    }
    let rdn = substring(group_dn, 0, comma);
    let rdn_str = rdn.as_str();
    let eq = find_char(rdn_str, '=');
    proof {
        lemma_first_index_bound(rdn@, '=');
    }
    let n = rdn_str.unicode_len();
    if eq < n {
        let rest = substring(rdn_str, eq + 1, n);
        let rest_str = rest.as_str();
        let end = find_char(rest_str, '=');
        proof {
            lemma_first_index_bound(rest@, '=');
            assert(rest@ =~= rdn@.skip(eq + 1));
        }
        let r = substring(rest_str, 0, end);
        proof {
            assert(r@ =~= rest@.take(end as int));
        }
        r
    } else {
        String::new()
    }
}

/// The position of the first group-membership attribute of an entry.
fn find_member_of(attrs: &Vec<Attribute>) -> (r: usize)
    ensures
        r == member_of_index(attrs@.map_values(|a: Attribute| a@)),
{
    let ghost av = attrs@.map_values(|a: Attribute| a@);
    let key = String::from_str("memberOf");
    proof {
        reveal_strlit("memberOf");
        assert(key@ =~= member_of_name());
    }
    let mut i: usize = 0;
    while i < attrs.len()
        invariant
            i <= attrs.len(),
            av == attrs@.map_values(|a: Attribute| a@),
            key@ == member_of_name(),
            forall|j: int| 0 <= j < i ==> av[j].name != member_of_name(),
        decreases attrs.len() - i,
    {
        if attrs[i].name == key {
            proof {
                lemma_member_of_index(av, i as int);
            }
            return i;
        }
        i = i + 1;
    }
    proof {
        lemma_member_of_index(av, i as int);
    }
    i
}

/// The text that stands for `c` in a search filter value: `\`, `*`, `(`, `)` and NUL
/// become `\` and two lowercase hex digits, every other character stands for itself.
pub open spec fn escaped_filter_char(c: char) -> Seq<char> {
    if c == '\\' {
        seq!['\\', '5', 'c']
    } else if c == '*' {
        seq!['\\', '2', 'a']
    } else if c == '(' {
        seq!['\\', '2', '8']
    } else if c == ')' {
        seq!['\\', '2', '9']
    } else if c == '\0' {
        seq!['\\', '0', '0']
    } else {
        seq![c]
    }
}

/// A value made safe to stand inside a search filter.
pub open spec fn escape_filter_value(s: Seq<char>) -> Seq<char>
    decreases s.len(),
{
    if s.len() == 0 {
        Seq::empty()
    } else {
        escape_filter_value(s.drop_last()) + escaped_filter_char(s.last())
    }
}

/// An escaped value holds none of the characters that give a search filter its structure:
/// no parenthesis, no `*` and no NUL, so a value cannot change the filter it is put in.
pub proof fn lemma_escaped_value_is_inert(s: Seq<char>)
    ensures
        forall|i: int|
            0 <= i < escape_filter_value(s).len() ==> {
                let c = #[trigger] escape_filter_value(s)[i];
                c != '(' && c != ')' && c != '*' && c != '\0'
            },
    decreases s.len(),
{
    if s.len() > 0 {
        lemma_escaped_value_is_inert(s.drop_last());
        let a = escape_filter_value(s.drop_last());
        let b = escaped_filter_char(s.last());
        assert forall|i: int| 0 <= i < escape_filter_value(s).len() implies {
            let c = #[trigger] escape_filter_value(s)[i];
            c != '(' && c != ')' && c != '*' && c != '\0'
        } by {
            if i >= a.len() {
                assert(escape_filter_value(s)[i] == b[i - a.len()]);
            } else {
                assert(escape_filter_value(s)[i] == a[i]);
            }
        };
    }
}

/// Relies on ldap3::ldap_escape, which replaces each of `\`, `*`, `(`, `)` and NUL by `\`
/// and its two lowercase hex digits and keeps every other character.
#[verifier::external_body]
fn ldap_escape_value(s: &str) -> (r: String)
    ensures
        r@ == escape_filter_value(s@),
{
    ldap3::ldap_escape(s).into_owned()
}

/// A filter template with each `{}` replaced by `value`.
pub open spec fn fill_template(t: Seq<char>, value: Seq<char>) -> Seq<char>
    decreases t.len(),
{
    if t.len() == 0 {
        Seq::empty()
    } else if t.len() >= 2 && t[t.len() - 2] == '{' && t.last() == '}' {
        fill_template(t.take(t.len() - 2), value) + value
    } else {
        fill_template(t.drop_last(), value) + seq![t.last()]
    }
}

/// Replaces each `{}` of `template` by `value`.
pub fn fill_filter_template(template: &str, value: &str) -> (r: String)
    ensures
        r@ == fill_template(template@, value@),
{
    let t = template;
    let n = t.unicode_len();
    let mut out = String::new();
    let mut i: usize = 0;
    while i < n
        invariant
            n == t@.len(),
            i <= n,
            out@ == fill_template(t@.take(i as int), value@),
            i > 0 && i < n && t@[i - 1] == '{' ==> t@[i as int] != '}',
        decreases n - i,
    {
        let c = t.get_char(i);
        if c == '{' && i + 1 < n && t.get_char(i + 1) == '}' {
            out.append(value);
            i = i + 2;
            proof {
                let tk = t@.take(i as int);
                assert(tk.take(tk.len() - 2) =~= t@.take(i - 2));
            }
        } else {
            let one = substring(t, i, i + 1);
            out.append(one.as_str());
            i = i + 1;
            proof {
                let tk = t@.take(i as int);
                assert(tk.drop_last() =~= t@.take(i - 1));
                assert(one@ =~= seq![tk.last()]);
            }
        }
    }
    assert(t@.take(n as int) =~= t@);
    out
}

/// The distinguished name that a user binds as: `CN=<username>,<base DN>`.
pub open spec fn bind_dn_of(username: Seq<char>, base_dn: Seq<char>) -> Seq<char> {
    seq!['C', 'N', '='] + username + seq![','] + base_dn
}

/// Builds the distinguished name that `username` binds as under `base_dn`.
pub fn bind_dn(username: &str, base_dn: &str) -> (r: String)
    ensures
        r@ == bind_dn_of(username@, base_dn@),
{
    let mut dn = String::from_str("CN=");
    dn.append(username);
    dn.append(",");
    dn.append(base_dn);
    proof {
        reveal_strlit("CN=");
        reveal_strlit(",");
        assert(dn@ =~= bind_dn_of(username@, base_dn@));
    }
    dn
}

/// What the directory answered to a bind.
pub enum BindReply {
    /// The bind completed with this result code; zero means success.
    Completed { rc: u32 },
    /// The bind failed in transport.
    Failed,
}

/// Whether a bind reply accepts the credential.
pub open spec fn bind_accepted(reply: BindReply) -> bool {
    reply matches BindReply::Completed { rc } && rc == 0
}

/// What the directory answered to a search.
pub enum SearchReply {
    /// The search completed with this result code and these entries; zero means success.
    Completed { rc: u32, entries: Vec<DirectoryEntry> },
    /// The search failed in transport.
    Failed,
}

/// The entries that a search reply yields: those of a search that succeeded, none otherwise.
pub open spec fn reply_entries(reply: SearchReply) -> Seq<DirectoryEntryView> {
    match reply {
        SearchReply::Completed { rc, entries } => if rc == 0 {
            entries_view(entries@)
        } else {
            Seq::empty()
        },
        SearchReply::Failed => Seq::empty(),
    }
}

/// A subtree search to send to the directory.
pub struct SearchRequest {
    pub base: String,
    pub filter: String,
    pub attrs: Vec<String>,
}

/// Where a directory connection stands.
#[derive(Debug, Clone, Copy, PartialEq, Eq, Structural)]
pub enum LinkState {
    Uninitialized,
    Connected,
    Closed,
}

/// A connector that checks credentials and reads group membership in a directory.
///
/// It holds the directory settings and the state of its one connection; the exchanges
/// with the directory are carried out by its caller, who hands back each reply.
pub struct LdapConnector {
    pub url: String,
    pub base_dn: String,
    pub filter_format: String,
    pub attrs: Vec<String>,
    pub state: LinkState,
}

impl LdapConnector {
    /// Maps directory entries to permissions: one for each value of each entry's
    /// group-membership attribute, named after the group, described by the entry's
    /// distinguished name, and granting read access.
    pub fn parse_search_entry(entries: &Vec<DirectoryEntry>) -> (r: Vec<Permission>)
        ensures
            r@.map_values(|p: Permission| p@) == permissions_of(entries_view(entries@)),
    {
        let ghost ev = entries_view(entries@);
        let mut out: Vec<Permission> = Vec::new();
        let mut i: usize = 0;
        while i < entries.len()
            invariant
                i <= entries.len(),
                ev == entries_view(entries@),
                out@.map_values(|p: Permission| p@) == permissions_of(ev.take(i as int)),
            decreases entries.len() - i,
        {
            let entry = &entries[i];
            let k = find_member_of(&entry.attrs);
            let ghost before = out@.map_values(|p: Permission| p@);
            let ghost groups = member_of_values(ev[i as int].attrs);
            proof {
                assert(ev[i as int] == entry@);
            }
            if k < entry.attrs.len() {
                let values = &entry.attrs[k].values;
                assert(groups =~= strings_view(values@));
                let mut j: usize = 0;
                while j < values.len()
                    invariant
                        j <= values.len(),
                        groups == strings_view(values@),
                        out@.map_values(|p: Permission| p@) == before + groups.take(j as int).map_values(
                            |g: Seq<char>| group_permission(entry.dn@, g),
                        ),
                    decreases values.len() - j,
                {
                    let name = parse_group_name(values[j].as_str());
                    let perm = Permission::new(name, entry.dn.clone(), Access::READ);
                    proof {
                        assert(groups[j as int] == values@[j as int]@);
                        assert(perm@ == group_permission(entry.dn@, groups[j as int]));
                    }
                    let ghost prev = out@;
                    out.push(perm);
                    j = j + 1;
                    proof {
                        let f = |g: Seq<char>| group_permission(entry.dn@, g);
                        assert(groups.take(j as int) =~= groups.take(j - 1).push(groups[j - 1]));
                        assert(groups.take(j as int).map_values(f) =~= groups.take(j - 1).map_values(
                            f,
                        ).push(f(groups[j - 1])));
                        assert(out@ =~= prev.push(perm));
                        assert(out@.map_values(|p: Permission| p@) =~= prev.map_values(
                            |p: Permission| p@,
                        ).push(perm@));
                        assert(out@.map_values(|p: Permission| p@) =~= before + groups.take(
                            j as int,
                        ).map_values(f));
                    }
                }
                assert(groups.take(j as int) =~= groups);
            } else {
                assert(groups.map_values(|g: Seq<char>| group_permission(entry.dn@, g)) =~= Seq::empty());
                assert(out@.map_values(|p: Permission| p@) =~= before + groups.map_values(
                    |g: Seq<char>| group_permission(entry.dn@, g),
                ));
            }
            i = i + 1;
            proof {
                assert(ev.take(i as int).drop_last() =~= ev.take(i - 1));
                assert(ev.take(i as int).last() == ev[i - 1]);
            }
        }
        assert(ev.take(i as int) =~= ev);
        out
    }

    /// A connector for the directory that `config` names, not yet connected.
    pub fn new(config: &Config) -> (r: LdapConnector)
        ensures
            r.url@ == config.ldap_url@,
            r.base_dn@ == config.ad_base_dn@,
            r.filter_format@ == config.ad_filter_format@,
            strings_view(r.attrs@) == strings_view(config.ad_attrs@),
            r.state == LinkState::Uninitialized,
    {
        LdapConnector {
            url: config.ldap_url.clone(),
            base_dn: config.ad_base_dn.clone(),
            filter_format: config.ad_filter_format.clone(),
            attrs: copy_strings(&config.ad_attrs),
            state: LinkState::Uninitialized,
        }
    }

    /// Records the outcome of opening the connection: connected where it opened,
    /// unchanged where it failed. Returns whether it opened.
    pub fn initialize(&mut self, opened: bool) -> (r: bool)
        ensures
            r == opened,
            final(self).state == (if opened {
                LinkState::Connected
            } else {
                old(self).state
            }),
            final(self).url == old(self).url,
            final(self).base_dn == old(self).base_dn,
            final(self).filter_format == old(self).filter_format,
            final(self).attrs == old(self).attrs,
    {
        if opened {
            self.state = LinkState::Connected;
        }
        opened
    }

    /// The distinguished name to bind `username` as; none while not connected, as no bind
    /// may be sent then.
    pub fn bind_request(&self, username: &str) -> (r: Option<String>)
        ensures
            self.state == LinkState::Connected <==> r is Some,
            r matches Some(dn) ==> dn@ == bind_dn_of(username@, self.base_dn@),
    {
        if self.state == LinkState::Connected {
            Some(bind_dn(username, self.base_dn.as_str()))
        } else {
            None
        }
    }

    /// Decides whether the directory's reply to the bind authenticates the user: only a
    /// bind that completed with success, on an open connection, does. A transport failure
    /// or a rejected credential both give false.
    pub fn check_bind(&self, reply: &BindReply) -> (r: bool)
        ensures
            r == (self.state == LinkState::Connected && bind_accepted(*reply)),
    {
        if self.state != LinkState::Connected {
            return false;
        }
        match reply {
            BindReply::Completed { rc } => *rc == 0,
            BindReply::Failed => false,
        }
    }

    /// The search for the groups of `identifier`: rooted at the base DN, with the
    /// identifier escaped into the filter template, asking for the configured attributes.
    /// None while not connected.
    pub fn permission_lookup(&self, identifier: &str) -> (r: Option<SearchRequest>)
        ensures
            self.state == LinkState::Connected <==> r is Some,
            r matches Some(q) ==> {
                &&& q.base@ == self.base_dn@
                &&& q.filter@ == fill_template(self.filter_format@, escape_filter_value(identifier@))
                &&& strings_view(q.attrs@) == strings_view(self.attrs@)
            },
    {
        if self.state != LinkState::Connected {
            return None;
        }
        let value = ldap_escape_value(identifier);
        let filter = fill_filter_template(self.filter_format.as_str(), value.as_str());
        Some(SearchRequest { base: self.base_dn.clone(), filter, attrs: copy_strings(&self.attrs) })
    }

    /// The entries of a search reply: those of a search that succeeded; none where the
    /// search failed, in transport or in the directory.
    pub fn unpack_search_results(reply: SearchReply) -> (r: Vec<DirectoryEntry>)
        ensures
            entries_view(r@) == reply_entries(reply),
    {
        match reply {
            SearchReply::Completed { rc, entries } => if rc == 0 {
                entries
            } else {
                let none: Vec<DirectoryEntry> = Vec::new();
                assert(entries_view(none@) =~= Seq::empty());
                none
            },
            SearchReply::Failed => {
                let none: Vec<DirectoryEntry> = Vec::new();
                assert(entries_view(none@) =~= Seq::empty());
                none
            },
        }
    }

    /// The permissions that a search reply grants: those of its entries where the
    /// connection is open and the search succeeded, none otherwise.
    pub fn resolve_permissions_from(&self, reply: SearchReply) -> (r: Vec<Permission>)
        ensures
            r@.map_values(|p: Permission| p@) == (if self.state == LinkState::Connected {
                permissions_of(reply_entries(reply))
            } else {
                Seq::empty()
            }),
    {
        if self.state != LinkState::Connected {
            let none: Vec<Permission> = Vec::new();
            assert(none@.map_values(|p: Permission| p@) =~= Seq::empty());
            return none;
        }
        let entries = Self::unpack_search_results(reply);
        Self::parse_search_entry(&entries)
    }

    /// Closes the connection. Returns whether an unbind is to be sent: only an open
    /// connection is unbound, and only once.
    pub fn unbind_ldap(&mut self) -> (r: bool)
        ensures
            r == (old(self).state == LinkState::Connected),
            final(self).state == (if r {
                LinkState::Closed
            } else {
                old(self).state
            }),
            final(self).url == old(self).url,
            final(self).base_dn == old(self).base_dn,
            final(self).filter_format == old(self).filter_format,
            final(self).attrs == old(self).attrs,
    {
        if self.state == LinkState::Connected {
            self.state = LinkState::Closed;
            true
        } else {
            false
        }
    }
}

impl Authenticate for LdapConnector {
    open spec fn authenticates(
        &self,
        username: Seq<char>,
        password: Seq<char>,
        reply: BindReply,
    ) -> bool {
        self.state == LinkState::Connected && bind_accepted(reply)
    }

    fn authenticate(&mut self, username: &str, password: &str, reply: &BindReply) -> (r: bool) {
        self.check_bind(reply)
    }
}

impl Authorize for LdapConnector {
    open spec fn grants(&self, identifier: Seq<char>, reply: SearchReply) -> Seq<PermissionView> {
        if self.state == LinkState::Connected {
            permissions_of(reply_entries(reply))
        } else {
            Seq::empty()
        }
    }

    fn resolve_permission(&mut self, identifier: &str, reply: SearchReply) -> (r: Vec<Permission>) {
        self.resolve_permissions_from(reply)
    }
}

/// Another name of the directory connector.
pub type LdapAuthenticate = LdapConnector;

impl Auth for LdapConnector {

}

} // verus!
