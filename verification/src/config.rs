//! The device registry and the configuration values the pipeline runs on.
//!
//! Configuration is loaded from the process environment by the binary and
//! handed in here as plain values; this module owns the registry's
//! semantics: insertion with override, lookup with a placeholder for
//! unknown devices, and the requirement that at least one device is
//! registered before the pipeline may start.

use vstd::prelude::*;
use vstd::string::{StrSliceExecFns, StringExecFns};

use crate::assoc::{key_index, lemma_key_index_at, lemma_key_index_bounds, lemma_key_index_none};

verus! {

/// One registry entry: a device address in canonical uppercase hex form
/// and the display name configured for it.
#[derive(Clone, Debug)]
pub struct TagEntry {
    pub mac: String,
    pub name: String,
}

impl View for TagEntry {
    type V = (Seq<char>, Seq<char>);

    open spec fn view(&self) -> (Seq<char>, Seq<char>) {
        (self.mac@, self.name@)
    }
}

/// Failure to assemble a usable configuration.
#[derive(Clone, Copy, PartialEq, Eq, Structural, Debug)]
pub enum ConfigError {
    /// No device registry entry could be formed: the pipeline has nothing
    /// to collect for and refuses to start.
    NoTags,
}

/// The name bound to `mac`, where a later binding overrides an earlier
/// one, as repeated inserts of one address leave the name given last.
pub open spec fn tags_lookup(tags: Seq<(Seq<char>, Seq<char>)>, mac: Seq<char>) -> Option<
    Seq<char>,
> {
    if key_index(tags, mac) >= 0 {
        Some(tags[key_index(tags, mac)].1)
    } else {
        None
    }
}

/// The registry after `mac` is bound to `name`: the last existing binding
/// of `mac` is replaced in place, a new address is appended at the end.
pub open spec fn tags_insert(
    tags: Seq<(Seq<char>, Seq<char>)>,
    mac: Seq<char>,
    name: Seq<char>,
) -> Seq<(Seq<char>, Seq<char>)> {
    if key_index(tags, mac) >= 0 {
        tags.update(key_index(tags, mac), (mac, name))
    } else {
        tags.push((mac, name))
    }
}

/// `tags` with every binding of `pairs` inserted in order.
pub open spec fn tags_insert_all(
    tags: Seq<(Seq<char>, Seq<char>)>,
    pairs: Seq<(Seq<char>, Seq<char>)>,
) -> Seq<(Seq<char>, Seq<char>)>
    decreases pairs.len(),
{
    if pairs.len() == 0 {
        tags
    } else {
        tags_insert(tags_insert_all(tags, pairs.drop_last()), pairs.last().0, pairs.last().1)
    }
}

/// The display name an aggregate carries for `mac`: the registered name,
/// or the placeholder for a device the registry does not know.
pub open spec fn resolved_name(tags: Seq<(Seq<char>, Seq<char>)>, mac: Seq<char>) -> Seq<char> {
    match tags_lookup(tags, mac) {
        Some(name) => name,
        None => "Unknown"@,
    }
}

/// Everything the pipeline is configured with: the device registry and
/// the database connection string.
#[derive(Clone, Debug)]
pub struct SensorConfig {
    /// Registered devices; each address appears at most once once the
    /// registry is built through [`SensorConfig::insert_tag`].
    pub tags: Vec<TagEntry>,
    /// Connection string for the database, including the certificate
    /// parameter the persister extracts.
    pub database_url: String,
}

impl SensorConfig {
    /// The registry as a sequence of (address, name) bindings.
    pub open spec fn tags_view(&self) -> Seq<(Seq<char>, Seq<char>)> {
        self.tags@.map_values(|e: TagEntry| e@)
    }

    /// Registered addresses are pairwise distinct.
    pub open spec fn wf(&self) -> bool {
        forall|i: int, j: int|
            0 <= i < j < self.tags_view().len() ==> (#[trigger] self.tags_view()[i].0) != (
            #[trigger] self.tags_view()[j].0)
    }

    /// An empty registry with the given connection string.
    pub fn empty(database_url: String) -> (r: SensorConfig)
        ensures
            r.tags_view() == Seq::<(Seq<char>, Seq<char>)>::empty(),
            r.database_url == database_url,
            r.wf(),
    {
        let r = SensorConfig { tags: Vec::new(), database_url };
        proof {
            assert(r.tags_view() =~= Seq::<(Seq<char>, Seq<char>)>::empty());
        }
        r
    }

    /// The registered name for `mac`, if any.
    pub fn find_name(&self, mac: &String) -> (r: Option<String>)
        ensures
            match r {
                Some(name) => tags_lookup(self.tags_view(), mac@) == Some(name@),
                None => tags_lookup(self.tags_view(), mac@) is None,
            },
    {
        let ghost tags = self.tags_view();
        let mut i: usize = self.tags.len();
        while i > 0
            invariant
                i <= self.tags.len(),
                tags == self.tags_view(),
                forall|k: int| i <= k < tags.len() ==> (#[trigger] tags[k].0) != mac@,
            decreases i,
        {
            i = i - 1;
            proof {
                assert(tags[i as int] == self.tags@[i as int]@);
            }
            if self.tags[i].mac == *mac {
                proof {
                    lemma_key_index_at(tags, mac@, i as int);
                }
                return Some(self.tags[i].name.clone());
            }
        }
        proof {
            lemma_key_index_none(tags, mac@);
        }
        None
    }

    /// Whether `mac` is a registered device address.
    pub fn is_registered(&self, mac: &String) -> (r: bool)
        ensures
            r == (tags_lookup(self.tags_view(), mac@) is Some),
    {
        self.find_name(mac).is_some()
    }

    /// The display name to persist for `mac`: its registered name, or the
    /// placeholder when the address is unknown.
    pub fn resolve_name(&self, mac: &String) -> (r: String)
        ensures
            r@ == resolved_name(self.tags_view(), mac@),
    {
        match self.find_name(mac) {
            Some(name) => name,
            None => String::from_str("Unknown"),
        }
    }

    /// Bind `mac` to `name`, overriding any earlier binding of `mac`.
    pub fn insert_tag(&mut self, mac: String, name: String)
        ensures
            final(self).tags_view() == tags_insert(old(self).tags_view(), mac@, name@),
            final(self).database_url == old(self).database_url,
            old(self).wf() ==> final(self).wf(),
    {
        let ghost tags = self.tags_view();
        let ghost mac_v = mac@;
        let ghost name_v = name@;
        let mut i: usize = self.tags.len();
        while i > 0
            invariant
                i <= self.tags.len(),
                tags == self.tags_view(),
                tags == old(self).tags_view(),
                mac_v == mac@,
                name_v == name@,
                self.database_url == old(self).database_url,
                forall|k: int| i <= k < tags.len() ==> (#[trigger] tags[k].0) != mac_v,
            decreases i,
        {
            i = i - 1;
            proof {
                assert(tags[i as int] == self.tags@[i as int]@);
            }
            if self.tags[i].mac == mac {
                self.tags[i] = TagEntry { mac, name };
                proof {
                    lemma_key_index_at(tags, mac_v, i as int);
                    assert(self.tags_view() =~= tags.update(i as int, (mac_v, name_v)));
                    if old(self).wf() {
                        assert forall|a: int, b: int|
                            0 <= a < b < self.tags_view().len() implies (
                        #[trigger] self.tags_view()[a].0) != (
                        #[trigger] self.tags_view()[b].0) by {
                            assert(old(self).tags_view()[a].0 != old(self).tags_view()[b].0);
                            assert(self.tags_view()[a].0 == tags[a].0);
                            assert(self.tags_view()[b].0 == tags[b].0);
                        }
                    }
                }
                return ;
            }
        }
        self.tags.push(TagEntry { mac, name });
        proof {
            lemma_key_index_none(tags, mac_v);
            assert(self.tags_view() =~= tags.push((mac_v, name_v)));
            if old(self).wf() {
                assert forall|a: int, b: int|
                    0 <= a < b < self.tags_view().len() implies (
                #[trigger] self.tags_view()[a].0) != (#[trigger] self.tags_view()[b].0) by {
                    if b < tags.len() {
                        assert(old(self).tags_view()[a].0 != old(self).tags_view()[b].0);
                        assert(self.tags_view()[a].0 == tags[a].0);
                        assert(self.tags_view()[b].0 == tags[b].0);
                    } else {
                        assert(tags[a].0 != mac_v);
                    }
                }
            }
        }
    }


    /// Build the configuration from the tag-list string and the
    /// connection string.
    ///
    /// The tag list holds `MAC=Name` pairs separated by commas; white
    /// space around a pair and around its two sides is ignored, a pair
    /// without `=` or with an empty side is dropped, and a later pair
    /// overrides an earlier one with the same address.  A list that
    /// yields no pair at all is refused: the pipeline needs at least one
    /// registered device.
    pub fn new(ruuvi_tags: &str, database_url: String) -> (r: Result<SensorConfig, ConfigError>)
        ensures
            r is Ok <==> spec_parse_tags(ruuvi_tags@).len() > 0,
            match r {
                Ok(c) => {
                    &&& c.tags_view() == spec_parse_tags(ruuvi_tags@)
                    &&& c.wf()
                    &&& c.database_url == database_url
                },
                Err(e) => e == ConfigError::NoTags,
            },
    {
        let ghost full = ruuvi_tags@;
        let mut config = SensorConfig::empty(database_url);
        let len = ruuvi_tags.unicode_len();
        let mut p: usize = 0;
        let ghost mut done: Seq<Seq<char>> = Seq::empty();
        proof {
            assert(full.skip(0) =~= full);
            assert(Seq::<Seq<char>>::empty() + split_char(full, ',') =~= split_char(full, ','));
        }
        loop
            invariant_except_break
                split_char(full, ',') == done + split_char(full.skip(p as int), ','),
            invariant
                len == full.len(),
                full == ruuvi_tags@,
                p <= len,
                config.wf(),
                config.database_url == database_url,
                config.tags_view() == tags_from_segments(done),
            ensures
                config.wf(),
                config.database_url == database_url,
                config.tags_view() == tags_from_segments(split_char(full, ',')),
            decreases len - p,
        {
            let ghost t = full.skip(p as int);
            let mut q: usize = p;
            while q < len && ruuvi_tags.get_char(q) != ','
                invariant
                    p <= q <= len,
                    len == full.len(),
                    full == ruuvi_tags@,
                    forall|k: int| p <= k < q ==> full[k] != ',',
                decreases len - q,
            {
                q = q + 1;
            }
            proof {
                assert forall|ii: int| 0 <= ii < q - p implies t[ii] != ',' by {
                    assert(t[ii] == full[p as int + ii]);
                }
                if q < len {
                    assert(t[q as int - p as int] == full[q as int]);
                    lemma_find_char_at(t, ',', q as int - p as int);
                } else {
                    lemma_find_char_none(t, ',');
                }
            }
            let seg = ruuvi_tags.substring_char(p, q);
            proof {
                assert(seg@ =~= t.take(q as int - p as int));
            }
            match parse_segment(seg) {
                Some(pair) => {
                    config.insert_tag(pair.0, pair.1);
                },
                None => {},
            }
            let ghost done_before = done;
            proof {
                done = done.push(seg@);
                assert(done.drop_last() =~= done_before);
                assert(done.last() == seg@);
                assert(tags_from_segments(done) == config.tags_view());
            }
            if q == len {
                proof {
                    assert(split_char(t, ',') =~= seq![t]);
                    assert(t =~= seg@);
                    assert(done_before + split_char(t, ',') =~= done);
                    assert(split_char(full, ',') == done);
                }
                break ;
            }
            proof {
                assert(t.skip(q as int - p as int + 1) =~= full.skip(q as int + 1));
                assert(split_char(t, ',') == seq![t.take(q as int - p as int)] + split_char(
                    full.skip(q as int + 1),
                    ',',
                ));
                assert(seq![t.take(q as int - p as int)] =~= seq![seg@]);
                assert(done_before + (seq![seg@] + split_char(full.skip(q as int + 1), ','))
                    =~= done + split_char(full.skip(q as int + 1), ','));
            }
            p = q + 1;
        }
        if config.tags.len() == 0 {
            Err(ConfigError::NoTags)
        } else {
            Ok(config)
        }
    }

    /// Build a configuration from explicit (address, name) pairs, applied
    /// in order with override, refusing an outcome with no devices.
    pub fn from_tag_pairs(pairs: Vec<TagEntry>, database_url: String) -> (r: Result<
        SensorConfig,
        ConfigError,
    >)
        ensures
            match r {
                Ok(c) => {
                    &&& c.tags_view() == tags_insert_all(
                        Seq::<(Seq<char>, Seq<char>)>::empty(),
                        pairs@.map_values(|e: TagEntry| e@),
                    )
                    &&& c.wf()
                    &&& c.database_url == database_url
                },
                Err(e) => e == ConfigError::NoTags,
            },
            r is Ok <==> pairs@.len() > 0,
    {
        let ghost pair_views = pairs@.map_values(|e: TagEntry| e@);
        let mut config = SensorConfig::empty(database_url);
        let n = pairs.len();
        let mut i: usize = 0;
        while i < n
            invariant
                n == pairs.len(),
                i <= n,
                pair_views == pairs@.map_values(|e: TagEntry| e@),
                config.tags_view() == tags_insert_all(
                    Seq::<(Seq<char>, Seq<char>)>::empty(),
                    pair_views.take(i as int),
                ),
                config.wf(),
                config.database_url == database_url,
            decreases n - i,
        {
            let mac = pairs[i].mac.clone();
            let name = pairs[i].name.clone();
            proof {
                assert(pair_views.take(i as int + 1).drop_last() =~= pair_views.take(i as int));
                assert(pair_views[i as int] == pairs@[i as int]@);
            }
            config.insert_tag(mac, name);
            i = i + 1;
        }
        proof {
            assert(pair_views.take(n as int) =~= pair_views);
            lemma_tags_insert_all_len(Seq::<(Seq<char>, Seq<char>)>::empty(), pair_views);
        }
        if config.tags.len() == 0 {
            Err(ConfigError::NoTags)
        } else {
            Ok(config)
        }
    }
}

/// Folding inserts over an empty registry yields a non-empty registry
/// exactly when there was a pair to insert.
proof fn lemma_tags_insert_all_len(
    tags: Seq<(Seq<char>, Seq<char>)>,
    pairs: Seq<(Seq<char>, Seq<char>)>,
)
    ensures
        tags_insert_all(tags, pairs).len() > 0 <==> (tags.len() > 0 || pairs.len() > 0),
    decreases pairs.len(),
{
    if pairs.len() > 0 {
        lemma_tags_insert_all_len(tags, pairs.drop_last());
        let prev = tags_insert_all(tags, pairs.drop_last());
        lemma_key_index_bounds(prev, pairs.last().0);
        assert(tags_insert(prev, pairs.last().0, pairs.last().1).len() > 0);
    }
}


/// The characters trimming removes: Unicode white space.
pub open spec fn is_space(c: char) -> bool {
    c == ' ' || c == '\t' || c == '\n' || c == '\r' || c == '\u{000B}' || c == '\u{000C}'
        || c == '\u{0085}' || c == '\u{00A0}' || c == '\u{1680}' || c == '\u{2000}' || c
        == '\u{2001}' || c == '\u{2002}' || c == '\u{2003}' || c == '\u{2004}' || c == '\u{2005}'
        || c == '\u{2006}' || c == '\u{2007}' || c == '\u{2008}' || c == '\u{2009}' || c
        == '\u{200A}' || c == '\u{2028}' || c == '\u{2029}' || c == '\u{202F}' || c == '\u{205F}'
        || c == '\u{3000}'
}

fn is_space_char(c: char) -> (r: bool)
    ensures
        r == is_space(c),
{
    c == ' ' || c == '\t' || c == '\n' || c == '\r' || c == '\u{000B}' || c == '\u{000C}'
        || c == '\u{0085}' || c == '\u{00A0}' || c == '\u{1680}' || c == '\u{2000}' || c
        == '\u{2001}' || c == '\u{2002}' || c == '\u{2003}' || c == '\u{2004}' || c == '\u{2005}'
        || c == '\u{2006}' || c == '\u{2007}' || c == '\u{2008}' || c == '\u{2009}' || c
        == '\u{200A}' || c == '\u{2028}' || c == '\u{2029}' || c == '\u{202F}' || c == '\u{205F}'
        || c == '\u{3000}'
}

/// `s` without its leading white space.
pub open spec fn trim_front(s: Seq<char>) -> Seq<char>
    decreases s.len(),
{
    if s.len() > 0 && is_space(s.first()) {
        trim_front(s.drop_first())
    } else {
        s
    }
}

/// `s` without its trailing white space.
pub open spec fn trim_back(s: Seq<char>) -> Seq<char>
    decreases s.len(),
{
    if s.len() > 0 && is_space(s.last()) {
        trim_back(s.drop_last())
    } else {
        s
    }
}

/// `s` without leading and trailing white space.
pub open spec fn trim_seq(s: Seq<char>) -> Seq<char> {
    trim_back(trim_front(s))
}

/// The first position of `c` in `s`, or -1 when `c` does not occur.
pub open spec fn find_char(s: Seq<char>, c: char) -> int
    decreases s.len(),
{
    if s.len() == 0 {
        -1
    } else if s.first() == c {
        0
    } else {
        let r = find_char(s.drop_first(), c);
        if r < 0 {
            -1
        } else {
            r + 1
        }
    }
}

proof fn lemma_find_char_at(s: Seq<char>, c: char, k: int)
    requires
        0 <= k < s.len(),
        s[k] == c,
        forall|i: int| 0 <= i < k ==> s[i] != c,
    ensures
        find_char(s, c) == k,
    decreases k,
{
    if k > 0 {
        assert(s[0] != c);
        assert(s.drop_first()[k - 1] == c);
        assert forall|i: int| 0 <= i < k - 1 implies s.drop_first()[i] != c by {
            assert(s.drop_first()[i] == s[i + 1]);
        }
        lemma_find_char_at(s.drop_first(), c, k - 1);
    }
}

proof fn lemma_find_char_none(s: Seq<char>, c: char)
    requires
        forall|i: int| 0 <= i < s.len() ==> s[i] != c,
    ensures
        find_char(s, c) == -1,
    decreases s.len(),
{
    if s.len() > 0 {
        assert forall|i: int| 0 <= i < s.drop_first().len() implies s.drop_first()[i] != c by {
            assert(s.drop_first()[i] == s[i + 1]);
        }
        lemma_find_char_none(s.drop_first(), c);
    }
}

/// `s` cut at every occurrence of `sep`; an empty piece stands where two
/// separators touch, and one empty piece is the whole of an empty `s`.
pub open spec fn split_char(s: Seq<char>, sep: char) -> Seq<Seq<char>>
    decreases s.len(),
{
    let f = find_char(s, sep);
    if f < 0 || f >= s.len() {
        seq![s]
    } else {
        seq![s.take(f)] + split_char(s.skip(f + 1), sep)
    }
}

/// What one comma-separated piece contributes: trimmed, cut at its first
/// `=`, both sides trimmed again; a piece without `=` or with an empty
/// side contributes nothing.
pub open spec fn parse_pair(seg: Seq<char>) -> Option<(Seq<char>, Seq<char>)> {
    let t = trim_seq(seg);
    let e = find_char(t, '=');
    if t.len() == 0 {
        None
    } else if e < 0 || e >= t.len() {
        None
    } else {
        let mac = trim_seq(t.take(e));
        let name = trim_seq(t.skip(e + 1));
        if mac.len() > 0 && name.len() > 0 {
            Some((mac, name))
        } else {
            None
        }
    }
}

/// The registry the pieces build up, inserted in order with override.
pub open spec fn tags_from_segments(segs: Seq<Seq<char>>) -> Seq<(Seq<char>, Seq<char>)>
    decreases segs.len(),
{
    if segs.len() == 0 {
        Seq::empty()
    } else {
        let prev = tags_from_segments(segs.drop_last());
        match parse_pair(segs.last()) {
            Some(p) => tags_insert(prev, p.0, p.1),
            None => prev,
        }
    }
}

/// The registry a tag-list string describes: `MAC=Name` pairs separated
/// by commas, white space around pairs, addresses and names ignored, a
/// later pair overriding an earlier one with the same address.
pub open spec fn spec_parse_tags(s: Seq<char>) -> Seq<(Seq<char>, Seq<char>)> {
    tags_from_segments(split_char(s, ','))
}

/// `s` without leading and trailing white space.
fn trim_of<'a>(s: &'a str) -> (r: &'a str)
    ensures
        r@ == trim_seq(s@),
{
    let len = s.unicode_len();
    let mut a: usize = 0;
    proof {
        assert(s@.skip(0) =~= s@);
    }
    while a < len && is_space_char(s.get_char(a))
        invariant
            a <= len,
            len == s@.len(),
            trim_front(s@) == trim_front(s@.skip(a as int)),
        decreases len - a,
    {
        proof {
            assert(s@.skip(a as int).first() == s@[a as int]);
            assert(s@.skip(a as int).drop_first() =~= s@.skip(a as int + 1));
        }
        a = a + 1;
    }
    proof {
        assert(trim_front(s@) == s@.skip(a as int));
        assert(s@.skip(a as int) =~= s@.subrange(a as int, len as int));
    }
    let mut b: usize = len;
    while b > a && is_space_char(s.get_char(b - 1))
        invariant
            a <= b <= len,
            len == s@.len(),
            trim_front(s@) == s@.skip(a as int),
            trim_back(s@.skip(a as int)) == trim_back(s@.subrange(a as int, b as int)),
        decreases b,
    {
        proof {
            assert(s@.subrange(a as int, b as int).last() == s@[b as int - 1]);
            assert(s@.subrange(a as int, b as int).drop_last() =~= s@.subrange(
                a as int,
                b as int - 1,
            ));
        }
        b = b - 1;
    }
    proof {
        assert(trim_back(s@.subrange(a as int, b as int)) == s@.subrange(a as int, b as int));
        assert(trim_seq(s@) == s@.subrange(a as int, b as int));
    }
    s.substring_char(a, b)
}

/// Cut one comma piece into its address and name, as [`parse_pair`]
/// says, or nothing when the piece holds no usable pair.
fn parse_segment(seg: &str) -> (r: Option<(String, String)>)
    ensures
        match r {
            Some(p) => parse_pair(seg@) == Some((p.0@, p.1@)),
            None => parse_pair(seg@) is None,
        },
{
    let t = trim_of(seg);
    let tlen = t.unicode_len();
    if tlen == 0 {
        return None;
    }
    let mut e: usize = 0;
    while e < tlen && t.get_char(e) != '='
        invariant
            e <= tlen,
            tlen == t@.len(),
            forall|k: int| 0 <= k < e ==> t@[k] != '=',
        decreases tlen - e,
    {
        e = e + 1;
    }
    if e == tlen {
        proof {
            lemma_find_char_none(t@, '=');
        }
        return None;
    }
    proof {
        lemma_find_char_at(t@, '=', e as int);
    }
    let mac = trim_of(t.substring_char(0, e));
    let name = trim_of(t.substring_char(e + 1, tlen));
    if mac.unicode_len() > 0 && name.unicode_len() > 0 {
        Some((mac.to_owned(), name.to_owned()))
    } else {
        None
    }
}

} // verus!
