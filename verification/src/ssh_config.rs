//! The host names that an SSH config file declares, and the hosts that the
//! panel lists from the user's and the system-wide config file.
use vstd::prelude::*;
use crate::sorted::{
    insert_all_sorted, insert_sorted, lemma_sorted_elements, sorted_elements, strictly_sorted,
};
use crate::text::{
    char_views, chars_of, is_white_space, lemma_pieces_hold_no_separator, lemma_split_pieces_concat, split_chars, split_pieces, string_from_chars,
    string_views, trim, trim_chars, trim_start,
};

verus! {

/// `Host ` with a capital letter.
pub open spec fn host_keyword_upper() -> Seq<char> {
    seq!['H', 'o', 's', 't', ' ']
}

/// `host ` in lower case.
pub open spec fn host_keyword_lower() -> Seq<char> {
    seq!['h', 'o', 's', 't', ' ']
}

/// The arguments of a trimmed config line that starts with `Host ` or `host `
/// (the rest of the line after that prefix), or `None` for any other line.
pub open spec fn host_arguments(trimmed: Seq<char>) -> Option<Seq<char>> {
    if trimmed.len() >= 5 && (trimmed.take(5) == host_keyword_upper() || trimmed.take(5)
        == host_keyword_lower()) {
        Some(trimmed.skip(5))
    } else {
        None
    }
}

/// A host pattern that names one concrete host: not empty, no `*` wildcard,
/// and not a negated pattern (`!`).
pub open spec fn is_listed_host(word: Seq<char>) -> bool {
    &&& word.len() > 0
    &&& !word.contains('*')
    &&& word[0] != '!'
}

/// `line` is a `Host` line and `host` is one of its listed host names.
pub open spec fn line_declares_host(line: Seq<char>, host: Seq<char>) -> bool {
    match host_arguments(trim(line)) {
        Some(args) => split_pieces(args, false).contains(host) && is_listed_host(host),
        None => false,
    }
}

/// The hosts that the first `n` of `lines` declare.
pub open spec fn hosts_of_lines(lines: Seq<Seq<char>>, n: int) -> Set<Seq<char>> {
    Set::new(|h: Seq<char>| exists|k: int| 0 <= k < n && line_declares_host(lines[k], h))
}

/// The hosts that an SSH config text declares: on every line that, once
/// trimmed, starts with `Host ` or `host `, each whitespace-separated word that
/// is a listed host.
pub open spec fn config_hosts(content: Seq<char>) -> Set<Seq<char>> {
    hosts_of_lines(split_pieces(content, true), split_pieces(content, true).len() as int)
}

/// The hosts of lines that follow one another are the hosts of each part.
proof fn lemma_hosts_of_concat_lines(x: Seq<Seq<char>>, y: Seq<Seq<char>>)
    ensures
        hosts_of_lines(x + y, (x + y).len() as int) == hosts_of_lines(x, x.len() as int)
            + hosts_of_lines(y, y.len() as int),
{
    let xy = x + y;
    assert forall|h: Seq<char>|
        hosts_of_lines(xy, xy.len() as int).contains(h) <==> (hosts_of_lines(
            x,
            x.len() as int,
        ).contains(h) || hosts_of_lines(y, y.len() as int).contains(h)) by {
        if hosts_of_lines(xy, xy.len() as int).contains(h) {
            let k = choose|k: int| 0 <= k < xy.len() && line_declares_host(xy[k], h);
            if k < x.len() {
                assert(x[k] == xy[k]);
                assert(hosts_of_lines(x, x.len() as int).contains(h));
            } else {
                assert(y[k - x.len()] == xy[k]);
                assert(hosts_of_lines(y, y.len() as int).contains(h));
            }
        }
        if hosts_of_lines(x, x.len() as int).contains(h) {
            let k = choose|k: int| 0 <= k < x.len() && line_declares_host(x[k], h);
            assert(xy[k] == x[k]);
            assert(hosts_of_lines(xy, xy.len() as int).contains(h));
        }
        if hosts_of_lines(y, y.len() as int).contains(h) {
            let k = choose|k: int| 0 <= k < y.len() && line_declares_host(y[k], h);
            assert(xy[x.len() + k] == y[k]);
            assert(hosts_of_lines(xy, xy.len() as int).contains(h));
        }
    }
    assert(hosts_of_lines(xy, xy.len() as int) =~= hosts_of_lines(x, x.len() as int)
        + hosts_of_lines(y, y.len() as int));
}

/// An empty config declares no host, and the hosts of two config texts joined
/// by a line feed are the hosts of the first together with those of the
/// second; so parsing the joined text lists their union.
pub proof fn lemma_config_hosts_concat(a: Seq<char>, b: Seq<char>)
    ensures
        config_hosts(Seq::<char>::empty()) == Set::<Seq<char>>::empty(),
        config_hosts(a + seq!['\n'] + b) == config_hosts(a) + config_hosts(b),
        sorted_elements(config_hosts(a + seq!['\n'] + b)) == sorted_elements(
            config_hosts(a) + config_hosts(b),
        ),
{
    let e = Seq::<char>::empty();
    assert(split_pieces(e, true) =~= seq![e]);
    assert(trim_start(e) == e);
    assert(trim(e) =~= e);
    assert forall|h: Seq<char>| !config_hosts(e).contains(h) by {
        if config_hosts(e).contains(h) {
            let k = choose|k: int|
                0 <= k < split_pieces(e, true).len() && line_declares_host(
                    split_pieces(e, true)[k],
                    h,
                );
            assert(split_pieces(e, true)[k] == e);
        }
    }
    assert(config_hosts(e) =~= Set::<Seq<char>>::empty());
    lemma_split_pieces_concat(a, '\n', b, true);
    lemma_hosts_of_concat_lines(split_pieces(a, true), split_pieces(b, true));
}

/// Every host a config declares is a single concrete name: not empty, with no
/// whitespace and no `*` in it, and not starting with `!`.
pub proof fn lemma_config_hosts_are_names(content: Seq<char>, h: Seq<char>)
    requires
        config_hosts(content).contains(h),
    ensures
        h.len() > 0,
        !h.contains('*'),
        h[0] != '!',
        forall|m: int| 0 <= m < h.len() ==> !is_white_space(#[trigger] h[m]),
{
    let lines = split_pieces(content, true);
    let k = choose|k: int| 0 <= k < lines.len() && line_declares_host(lines[k], h);
    let args = host_arguments(trim(lines[k]))->0;
    lemma_pieces_hold_no_separator(args, false);
    let words = split_pieces(args, false);
    let j = choose|j: int| 0 <= j < words.len() && words[j] == h;
    assert forall|m: int| 0 <= m < h.len() implies !is_white_space(#[trigger] h[m]) by {
        assert(h[m] == words[j][m]);
    }
}

/// The arguments of a `Host` line (see `host_arguments`).
fn host_arguments_of(t: &Vec<char>) -> (res: Option<Vec<char>>)
    ensures
        match res {
            Some(r) => host_arguments(t@) == Some(r@),
            None => host_arguments(t@) is None,
        },
{
    if t.len() < 5 {
        return None;
    }
    let upper = t[0] == 'H' && t[1] == 'o' && t[2] == 's' && t[3] == 't' && t[4] == ' ';
    let lower = t[0] == 'h' && t[1] == 'o' && t[2] == 's' && t[3] == 't' && t[4] == ' ';
    proof {
        if t@.take(5) == host_keyword_upper() {
            assert(t@[0] == t@.take(5)[0] && t@[4] == t@.take(5)[4]);
            assert(t@[1] == t@.take(5)[1] && t@[2] == t@.take(5)[2] && t@[3] == t@.take(5)[3]);
        }
        if t@.take(5) == host_keyword_lower() {
            assert(t@[0] == t@.take(5)[0] && t@[4] == t@.take(5)[4]);
            assert(t@[1] == t@.take(5)[1] && t@[2] == t@.take(5)[2] && t@[3] == t@.take(5)[3]);
        }
        if upper {
            assert(t@.take(5) =~= host_keyword_upper());
        }
        if lower {
            assert(t@.take(5) =~= host_keyword_lower());
        }
    }
    if !upper && !lower {
        return None;
    }
    let mut rest: Vec<char> = Vec::new();
    let mut i: usize = 5;
    while i < t.len()
        invariant
            5 <= i <= t@.len(),
            rest@ == t@.subrange(5, i as int),
        decreases t@.len() - i,
    {
        rest.push(t[i]);
        assert(t@.subrange(5, i as int).push(t@[i as int]) =~= t@.subrange(5, i + 1));
        i = i + 1;
    }
    assert(rest@ =~= t@.skip(5));
    Some(rest)
}

/// Whether `w` is a listed host (see `is_listed_host`).
fn is_listed_host_chars(w: &Vec<char>) -> (res: bool)
    ensures
        res == is_listed_host(w@),
{
    if w.len() == 0 || w[0] == '!' {
        return false;
    }
    let mut i: usize = 0;
    while i < w.len()
        invariant
            i <= w@.len(),
            forall|k: int| 0 <= k < i ==> w@[k] != '*',
        decreases w@.len() - i,
    {
        if w[i] == '*' {
            assert(w@.contains('*'));
            return false;
        }
        i = i + 1;
    }
    true
}

/// Strings holding the given character vectors, in the same order.
pub fn strings_from_chars(v: &Vec<Vec<char>>) -> (res: Vec<String>)
    ensures
        string_views(res@) == char_views(v@),
{
    let mut res: Vec<String> = Vec::new();
    let mut i: usize = 0;
    while i < v.len()
        invariant
            i <= v@.len(),
            string_views(res@) == char_views(v@).take(i as int),
        decreases v@.len() - i,
    {
        let s = string_from_chars(&v[i]);
        let ghost before = res@;
        res.push(s);
        assert(string_views(res@) =~= string_views(before).push(v@[i as int]@));
        assert(char_views(v@).take(i + 1) =~= char_views(v@).take(i as int).push(v@[i as int]@));
        i = i + 1;
    }
    assert(char_views(v@).take(v@.len() as int) =~= char_views(v@));
    res
}

/// Character vectors holding the given strings, in the same order.
pub fn chars_from_strings(v: &Vec<String>) -> (res: Vec<Vec<char>>)
    ensures
        char_views(res@) == string_views(v@),
{
    let mut res: Vec<Vec<char>> = Vec::new();
    let mut i: usize = 0;
    while i < v.len()
        invariant
            i <= v@.len(),
            char_views(res@) == string_views(v@).take(i as int),
        decreases v@.len() - i,
    {
        let c = chars_of(v[i].as_str());
        let ghost before = res@;
        res.push(c);
        assert(char_views(res@) =~= char_views(before).push(v@[i as int]@));
        assert(string_views(v@).take(i + 1) =~= string_views(v@).take(i as int).push(
            v@[i as int]@,
        ));
        i = i + 1;
    }
    assert(string_views(v@).take(v@.len() as int) =~= string_views(v@));
    res
}

/// The host names declared in an SSH config text, in ascending order and each
/// once: on every line that, once trimmed, starts with `Host ` or `host `, every
/// whitespace-separated word that is not empty, holds no `*` and does not start
/// with `!`.
pub fn parse_ssh_config_hosts(content: &str) -> (hosts: Vec<String>)
    ensures
        strictly_sorted(string_views(hosts@)),
        string_views(hosts@).to_set() == config_hosts(content@),
        string_views(hosts@) == sorted_elements(config_hosts(content@)),
        forall|k: int|
            0 <= k < hosts@.len() ==> {
                let h = #[trigger] string_views(hosts@)[k];
                &&& h.len() > 0
                &&& !h.contains('*')
                &&& h[0] != '!'
                &&& forall|m: int| 0 <= m < h.len() ==> !is_white_space(#[trigger] h[m])
            },
{
    let chars = chars_of(content);
    let lines = split_chars(&chars, true);
    let ghost lv = char_views(lines@);
    let mut found: Vec<Vec<char>> = Vec::new();
    assert(char_views(found@).to_set() =~= hosts_of_lines(lv, 0));
    let mut li: usize = 0;
    while li < lines.len()
        invariant
            li <= lines@.len(),
            lv == char_views(lines@),
            lv == split_pieces(content@, true),
            strictly_sorted(char_views(found@)),
            char_views(found@).to_set() == hosts_of_lines(lv, li as int),
        decreases lines@.len() - li,
    {
        let t = trim_chars(&lines[li]);
        assert(lv[li as int] == lines@[li as int]@);
        match host_arguments_of(&t) {
            Some(args) => {
                let words = split_chars(&args, false);
                let ghost wv = char_views(words@);
                let mut wi: usize = 0;
                while wi < words.len()
                    invariant
                        li < lines@.len(),
                        wi <= words@.len(),
                        wv == char_views(words@),
                        strictly_sorted(char_views(found@)),
                        char_views(found@).to_set() == hosts_of_lines(lv, li as int).union(
                            Set::new(
                                |h: Seq<char>|
                                    exists|m: int| 0 <= m < wi && wv[m] == h && is_listed_host(h),
                            ),
                        ),
                    decreases words@.len() - wi,
                {
                    let ghost before = char_views(found@).to_set();
                    assert(wv[wi as int] == words@[wi as int]@);
                    if is_listed_host_chars(&words[wi]) {
                        let w = words[wi].clone();
                        insert_sorted(&mut found, w);
                    }
                    assert(char_views(found@).to_set() =~= hosts_of_lines(lv, li as int).union(
                        Set::new(
                            |h: Seq<char>|
                                exists|m: int| 0 <= m < wi + 1 && wv[m] == h && is_listed_host(h),
                        ),
                    ));
                    wi = wi + 1;
                }
                assert forall|h: Seq<char>|
                    char_views(found@).to_set().contains(h) <==> hosts_of_lines(
                        lv,
                        li + 1,
                    ).contains(h) by {
                    if line_declares_host(lv[li as int], h) {
                        let m = choose|m: int| 0 <= m < wv.len() && wv[m] == h;
                    }
                    if hosts_of_lines(lv, li + 1).contains(h) {
                        let k = choose|k: int| 0 <= k < li + 1 && line_declares_host(lv[k], h);
                        if k < li {
                            assert(hosts_of_lines(lv, li as int).contains(h));
                        }
                    }
                    if hosts_of_lines(lv, li as int).contains(h) {
                        let k = choose|k: int| 0 <= k < li && line_declares_host(lv[k], h);
                        assert(hosts_of_lines(lv, li + 1).contains(h));
                    }
                }
                assert(char_views(found@).to_set() =~= hosts_of_lines(lv, li + 1));
            },
            None => {
                assert forall|h: Seq<char>|
                    hosts_of_lines(lv, li + 1).contains(h) implies hosts_of_lines(
                        lv,
                        li as int,
                    ).contains(h) by {
                    let k = choose|k: int| 0 <= k < li + 1 && line_declares_host(lv[k], h);
                }
                assert forall|h: Seq<char>|
                    hosts_of_lines(lv, li as int).contains(h) implies hosts_of_lines(
                        lv,
                        li + 1,
                    ).contains(h) by {
                    let k = choose|k: int| 0 <= k < li && line_declares_host(lv[k], h);
                }
                assert(hosts_of_lines(lv, li as int) =~= hosts_of_lines(lv, li + 1));
            },
        }
        li = li + 1;
    }
    let hosts = strings_from_chars(&found);
    proof {
        lemma_sorted_elements(string_views(hosts@), config_hosts(content@));
        assert forall|k: int| 0 <= k < hosts@.len() implies {
            let h = #[trigger] string_views(hosts@)[k];
            &&& h.len() > 0
            &&& !h.contains('*')
            &&& h[0] != '!'
            &&& forall|m: int| 0 <= m < h.len() ==> !is_white_space(#[trigger] h[m])
        } by {
            assert(string_views(hosts@).to_set().contains(string_views(hosts@)[k]));
            lemma_config_hosts_are_names(content@, string_views(hosts@)[k]);
        }
    }
    hosts
}

/// The union of two host lists, in ascending order, each host once (what
/// collecting both lists into one ordered set gives).
pub fn merge_hosts(global_hosts: &Vec<String>, user_hosts: &Vec<String>) -> (res: Vec<String>)
    ensures
        strictly_sorted(string_views(res@)),
        string_views(res@).to_set() == string_views(global_hosts@).to_set() + string_views(
            user_hosts@,
        ).to_set(),
        string_views(res@) == sorted_elements(
            string_views(global_hosts@).to_set() + string_views(user_hosts@).to_set(),
        ),
{
    let g = chars_from_strings(global_hosts);
    let u = chars_from_strings(user_hosts);
    let mut merged: Vec<Vec<char>> = Vec::new();
    assert(char_views(merged@).to_set() =~= Set::<Seq<char>>::empty());
    insert_all_sorted(&mut merged, &g);
    insert_all_sorted(&mut merged, &u);
    assert(Set::<Seq<char>>::empty() + string_views(global_hosts@).to_set() =~= string_views(
        global_hosts@,
    ).to_set());
    let res = strings_from_chars(&merged);
    proof {
        lemma_sorted_elements(
            string_views(res@),
            string_views(global_hosts@).to_set() + string_views(user_hosts@).to_set(),
        );
    }
    res
}

/// Merging host lists does not depend on which list comes first.
pub proof fn lemma_merge_symmetric(a: Seq<Seq<char>>, b: Seq<Seq<char>>)
    ensures
        sorted_elements(a.to_set() + b.to_set()) == sorted_elements(b.to_set() + a.to_set()),
{
    assert(a.to_set() + b.to_set() =~= b.to_set() + a.to_set());
}

/// A change of one of the two SSH config files, with its new text.
pub enum ConfigSource {
    /// The user's own config file changed.
    User(String),
    /// The system-wide config file changed.
    Global(String),
}

/// The hosts last read from the system-wide and from the user's SSH config.
pub struct ConfigHostsWatch {
    global_hosts: Vec<String>,
    user_hosts: Vec<String>,
}

impl ConfigHostsWatch {
    /// Both host lists are in ascending order, each host once.
    #[verifier::type_invariant]
    spec fn host_lists_sorted(self) -> bool {
        &&& strictly_sorted(string_views(self.global_hosts@))
        &&& strictly_sorted(string_views(self.user_hosts@))
    }
}

impl View for ConfigHostsWatch {
    /// The sorted host lists of the system-wide and of the user's config.
    type V = (Seq<Seq<char>>, Seq<Seq<char>>);

    closed spec fn view(&self) -> (Seq<Seq<char>>, Seq<Seq<char>>) {
        (string_views(self.global_hosts@), string_views(self.user_hosts@))
    }
}

/// The host lists after `event`: the file that changed is read anew, the other
/// list stays.
pub open spec fn after_config_event(
    state: (Seq<Seq<char>>, Seq<Seq<char>>),
    event: ConfigSource,
) -> (Seq<Seq<char>>, Seq<Seq<char>>) {
    match event {
        ConfigSource::User(content) => (state.0, sorted_elements(config_hosts(content@))),
        ConfigSource::Global(content) => (sorted_elements(config_hosts(content@)), state.1),
    }
}

impl ConfigHostsWatch {
    /// No config read yet: both host lists are empty.
    pub fn new() -> (res: Self)
        ensures
            res@.0 == Seq::<Seq<char>>::empty(),
            res@.1 == Seq::<Seq<char>>::empty(),
    {
        let global_hosts: Vec<String> = Vec::new();
        let user_hosts: Vec<String> = Vec::new();
        assert(string_views(global_hosts@) =~= Seq::<Seq<char>>::empty());
        assert(string_views(user_hosts@) =~= Seq::<Seq<char>>::empty());
        ConfigHostsWatch { global_hosts, user_hosts }
    }

    /// Reads the hosts of the config file that changed.
    pub fn handle_event(&mut self, event: ConfigSource)
        ensures
            final(self)@ == after_config_event(old(self)@, event),
    {
        proof {
            use_type_invariant(&*self);
        }
        match event {
            ConfigSource::User(content) => {
                self.user_hosts = parse_ssh_config_hosts(content.as_str());
            },
            ConfigSource::Global(content) => {
                self.global_hosts = parse_ssh_config_hosts(content.as_str());
            },
        }
    }

    /// The hosts last read from the system-wide config.
    pub fn global_hosts(&self) -> (res: &Vec<String>)
        ensures
            string_views(res@) == self@.0,
            strictly_sorted(self@.0),
    {
        proof {
            use_type_invariant(self);
        }
        &self.global_hosts
    }

    /// The hosts last read from the user's config.
    pub fn user_hosts(&self) -> (res: &Vec<String>)
        ensures
            string_views(res@) == self@.1,
            strictly_sorted(self@.1),
    {
        proof {
            use_type_invariant(self);
        }
        &self.user_hosts
    }

    /// All hosts of both configs, in ascending order, each once.
    pub fn merged_hosts(&self) -> (res: Vec<String>)
        ensures
            string_views(res@) == sorted_elements(self@.0.to_set() + self@.1.to_set()),
    {
        merge_hosts(&self.global_hosts, &self.user_hosts)
    }
}

/// A change of the user's config and a change of the system-wide config give
/// the same host lists in either order.
pub proof fn lemma_config_events_commute(
    state: (Seq<Seq<char>>, Seq<Seq<char>>),
    user_content: String,
    global_content: String,
)
    ensures
        after_config_event(
            after_config_event(state, ConfigSource::User(user_content)),
            ConfigSource::Global(global_content),
        ) == after_config_event(
            after_config_event(state, ConfigSource::Global(global_content)),
            ConfigSource::User(user_content),
        ),
{
}

/// The merged host list depends only on the last text read from each file:
/// reading a file again with the same text changes nothing.
pub proof fn lemma_config_event_idempotent(
    state: (Seq<Seq<char>>, Seq<Seq<char>>),
    event: ConfigSource,
)
    ensures
        after_config_event(after_config_event(state, event), event) == after_config_event(
            state,
            event,
        ),
{
}

} // verus!
