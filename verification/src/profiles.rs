//! Saved connections.

use vstd::prelude::*;

use crate::addr::SocketAddr;
use crate::order;
use crate::path::FilePath;
use crate::text;

verus! {

/// A peer saved under a name.
#[derive(Debug)]
pub struct ConnectionProfile {
    pub name: String,
    pub peer: SocketAddr,
    pub alias: Option<String>,
    pub key: Option<String>,
}

/// A profile as a value of mathematics.
pub struct ProfileForm {
    pub name: Seq<char>,
    pub peer: SocketAddr,
    pub alias: Option<Seq<char>>,
    pub key: Option<Seq<char>>,
}

impl View for ConnectionProfile {
    type V = ProfileForm;

    open spec fn view(&self) -> ProfileForm {
        ProfileForm {
            name: self.name@,
            peer: self.peer,
            alias: text::text_in(self.alias),
            key: text::text_in(self.key),
        }
    }
}

impl ConnectionProfile {
    /// A copy of the profile.
    pub fn copied(&self) -> (r: ConnectionProfile)
        ensures
            r@ == self@,
    {
        ConnectionProfile {
            name: self.name.as_str().to_owned(),
            peer: self.peer,
            alias: text::copied(&self.alias),
            key: text::copied(&self.key),
        }
    }
}

/// The profiles of a list.
pub open spec fn forms(v: Seq<ConnectionProfile>) -> Seq<ProfileForm> {
    v.map_values(|p: ConnectionProfile| p@)
}

// ---------------------------------------------------------------- order

/// The text in lower case, by the Unicode rules of `str::to_lowercase`.
pub uninterp spec fn lowercase(s: Seq<char>) -> Seq<char>;

/// `str::to_lowercase`. It names the text.
#[verifier::external_body]
fn lowercase_of(s: &str) -> (r: String)
    ensures
        r@ == lowercase(s@),
{
    s.to_lowercase()
}

/// What profiles are sorted by.
pub open spec fn sort_key() -> spec_fn(ProfileForm) -> Seq<char> {
    |p: ProfileForm| lowercase(p.name)
}

/// The order of texts.
pub open spec fn text_order() -> spec_fn(Seq<char>, Seq<char>) -> bool {
    |a: Seq<char>, b: Seq<char>| text::precedes(a, b)
}

/// Whether `now` holds the profiles of `before` in the order of their names in lower case,
/// profiles that this does not tell apart as they stood before.
pub open spec fn stably_sorted(before: Seq<ProfileForm>, now: Seq<ProfileForm>) -> bool {
    order::stably_sorted(before, now, sort_key(), text_order())
}

proof fn lemma_text_order()
    ensures
        order::strict_order(text_order()),
{
    assert forall|a: Seq<char>| !#[trigger] text_order()(a, a) by {
        text::lemma_precedes_total(a, a);
    }
    assert forall|a: Seq<char>, b: Seq<char>| a != b implies #[trigger] text_order()(a, b)
        != text_order()(b, a) by {
        text::lemma_precedes_total(a, b);
    }
    assert forall|a: Seq<char>, b: Seq<char>, c: Seq<char>| #[trigger]
        text_order()(a, b) && #[trigger] text_order()(b, c) implies text_order()(a, c) by {
        text::lemma_precedes_transitive(a, b, c);
    }
}

/// A profile with the text that it is sorted by.
#[derive(Debug)]
pub struct KeyedProfile {
    pub key: String,
    pub profile: ConnectionProfile,
}

/// A profile with its key, as a value of mathematics.
pub struct KeyedForm {
    pub key: Seq<char>,
    pub profile: ProfileForm,
}

impl View for KeyedProfile {
    type V = KeyedForm;

    open spec fn view(&self) -> KeyedForm {
        KeyedForm { key: self.key@, profile: self.profile@ }
    }
}

/// The profiles of a list, with their keys.
pub open spec fn keyed_forms(v: Seq<KeyedProfile>) -> Seq<KeyedForm> {
    v.map_values(|p: KeyedProfile| p@)
}

/// The key of a profile.
pub open spec fn own_key() -> spec_fn(KeyedForm) -> Seq<char> {
    |p: KeyedForm| p.key
}

/// A profile without its key.
pub open spec fn without_key() -> spec_fn(KeyedForm) -> ProfileForm {
    |p: KeyedForm| p.profile
}

/// Sorts profiles by their keys; profiles with the same key keep their order.
pub fn sort_by_keys(list: Vec<KeyedProfile>) -> (r: Vec<KeyedProfile>)
    ensures
        order::stably_sorted(keyed_forms(list@), keyed_forms(r@), own_key(), text_order()),
{
    let mut list = list;
    let ghost s = keyed_forms(list@);
    let size: usize = list.len();
    let mut r: Vec<KeyedProfile> = Vec::new();
    let mut n: usize = 0;
    assert(s.take(0) =~= Seq::<KeyedForm>::empty());
    assert(keyed_forms(r@) =~= Seq::<KeyedForm>::empty());
    assert(keyed_forms(list@) =~= s.skip(0));
    while n < size
        invariant
            n <= size,
            size == s.len(),
            keyed_forms(list@) == s.skip(n as int),
            order::stably_sorted(s.take(n as int), keyed_forms(r@), own_key(), text_order()),
        decreases size - n,
    {
        assert(keyed_forms(list@).len() == list@.len());
        let ghost all = list@;
        let profile = list.remove(0);
        let ghost p = profile@;
        assert(p == keyed_forms(all)[0]);
        assert(keyed_forms(list@) =~= keyed_forms(all).skip(1));
        assert(keyed_forms(list@) =~= s.skip(n + 1));
        let ghost sofar = keyed_forms(r@);
        let mut i: usize = 0;
        while i < r.len()
            invariant_except_break
                i <= r@.len(),
            invariant
                sofar == keyed_forms(r@),
                p == profile@,
                i <= r@.len(),
                forall|k: int| 0 <= k < i ==> !text::precedes(p.key, (#[trigger] sofar[k]).key),
            ensures
                i < r@.len() ==> text::precedes(p.key, sofar[i as int].key),
            decreases r@.len() - i,
        {
            assert(sofar[i as int] == r@[i as int]@);
            if text::text_before(profile.key.as_str(), r[i].key.as_str()) {
                break;
            }
            i += 1;
        }
        proof {
            lemma_text_order();
            order::lemma_placed(
                s.take(n as int),
                sofar,
                p,
                i as int,
                own_key(),
                text_order(),
            );
            assert(s.take(n + 1) =~= s.take(n as int).push(p));
        }
        r.insert(i, profile);
        assert(keyed_forms(r@) =~= sofar.insert(i as int, p));
        n += 1;
    }
    assert(s.take(size as int) =~= s);
    r
}

/// Sorts profiles by their names in lower case; profiles that this does not tell apart keep
/// their order.
fn sort_profiles(list: Vec<ConnectionProfile>) -> (r: Vec<ConnectionProfile>)
    ensures
        stably_sorted(forms(list@), forms(r@)),
{
    let mut list = list;
    let ghost s = forms(list@);
    let size: usize = list.len();
    let mut keyed: Vec<KeyedProfile> = Vec::new();
    let mut n: usize = 0;
    assert(keyed_forms(keyed@).map_values(without_key()) =~= s.take(0));
    assert(forms(list@) =~= s.skip(0));
    while n < size
        invariant
            n <= size,
            size == s.len(),
            forms(list@) == s.skip(n as int),
            keyed_forms(keyed@).map_values(without_key()) == s.take(n as int),
            forall|k: int|
                0 <= k < keyed@.len() ==> (#[trigger] keyed@[k]).key@ == lowercase(
                    keyed@[k].profile@.name,
                ),
        decreases size - n,
    {
        assert(forms(list@).len() == list@.len());
        let ghost all = list@;
        let ghost before = keyed@;
        let profile = list.remove(0);
        assert(profile@ == forms(all)[0]);
        assert(forms(list@) =~= forms(all).skip(1));
        assert(forms(list@) =~= s.skip(n + 1));
        let key = lowercase_of(profile.name.as_str());
        keyed.push(KeyedProfile { key, profile });
        assert(keyed_forms(keyed@).map_values(without_key()) =~= keyed_forms(before).map_values(
            without_key(),
        ).push(s[n as int]));
        assert(s.take(n + 1) =~= s.take(n as int).push(s[n as int]));
        n += 1;
    }
    assert(s.take(size as int) =~= s);
    let ghost was = keyed_forms(keyed@);
    let mut sorted = sort_by_keys(keyed);
    let ghost now = keyed_forms(sorted@);
    proof {
        assert forall|i: int| 0 <= i < was.len() implies sort_key()(
            without_key()(#[trigger] was[i]),
        ) == own_key()(was[i]) by {
            assert(was[i] == keyed@[i]@);
        }
        order::lemma_keys_stripped(was, now, own_key(), without_key(), sort_key(), text_order());
    }
    let ghost left = now.map_values(without_key());
    let mut r: Vec<ConnectionProfile> = Vec::new();
    let mut m: usize = 0;
    assert(forms(r@) =~= left.take(0));
    assert(keyed_forms(sorted@) =~= now.skip(0));
    while m < size
        invariant
            m <= size,
            size == now.len(),
            left == now.map_values(without_key()),
            keyed_forms(sorted@) == now.skip(m as int),
            forms(r@) == left.take(m as int),
        decreases size - m,
    {
        assert(keyed_forms(sorted@).len() == sorted@.len());
        let ghost all = sorted@;
        let ghost before = r@;
        let first = sorted.remove(0);
        assert(first@ == keyed_forms(all)[0]);
        assert(keyed_forms(sorted@) =~= keyed_forms(all).skip(1));
        assert(keyed_forms(sorted@) =~= now.skip(m + 1));
        r.push(first.profile);
        assert(forms(r@) =~= forms(before).push(left[m as int]));
        assert(left.take(m + 1) =~= left.take(m as int).push(left[m as int]));
        m += 1;
    }
    assert(left.take(size as int) =~= left);
    r
}

// ---------------------------------------------------------------- store

/// The saved connections and the file that they are kept in.
#[derive(Debug)]
pub struct ProfileStore {
    pub path: FilePath,
    pub profiles: Vec<ConnectionProfile>,
}

/// The first profile with a name.
pub open spec fn first_named(s: Seq<ProfileForm>, name: Seq<char>) -> Option<ProfileForm>
    decreases s.len(),
{
    if s.len() == 0 {
        None
    } else if s[0].name == name {
        Some(s[0])
    } else {
        first_named(s.skip(1), name)
    }
}

/// The profiles without those of a name.
pub open spec fn without(s: Seq<ProfileForm>, name: Seq<char>) -> Seq<ProfileForm>
    decreases s.len(),
{
    if s.len() == 0 {
        Seq::empty()
    } else if s.last().name == name {
        without(s.drop_last(), name)
    } else {
        without(s.drop_last(), name).push(s.last())
    }
}

/// Whether `i` is the place of the first profile with a name.
pub open spec fn first_at(s: Seq<ProfileForm>, name: Seq<char>, i: int) -> bool {
    &&& 0 <= i < s.len()
    &&& s[i].name == name
    &&& forall|k: int| 0 <= k < i ==> (#[trigger] s[k]).name != name
}

/// Whether `now` is what saving a profile makes of `before`: it replaces the first of its
/// name; a new name is added, and all are sorted.
pub open spec fn upserted(
    before: Seq<ProfileForm>,
    profile: ProfileForm,
    now: Seq<ProfileForm>,
) -> bool {
    if first_named(before, profile.name) is Some {
        exists|i: int| #[trigger]
            first_at(before, profile.name, i) && now == before.update(i, profile)
    } else {
        stably_sorted(before.push(profile), now)
    }
}

proof fn lemma_first_named(s: Seq<ProfileForm>, name: Seq<char>)
    ensures
        first_named(s, name) is Some <==> exists|i: int| #[trigger] first_at(s, name, i),
        forall|i: int| #[trigger] first_at(s, name, i) ==> first_named(s, name) == Some(s[i]),
        first_named(s, name) is None <==> forall|k: int|
            0 <= k < s.len() ==> (#[trigger] s[k]).name != name,
    decreases s.len(),
{
    if s.len() > 0 {
        let rest = s.skip(1);
        lemma_first_named(rest, name);
        if s[0].name == name {
            assert(first_at(s, name, 0));
        } else {
            assert forall|i: int| #[trigger] first_at(rest, name, i) implies first_at(
                s,
                name,
                i + 1,
            ) by {
                assert forall|k: int| 0 <= k < i + 1 implies (#[trigger] s[k]).name != name by {
                    if k > 0 {
                        assert(rest[k - 1] == s[k]);
                    }
                }
            }
            assert forall|i: int| #[trigger] first_at(s, name, i) implies first_at(
                rest,
                name,
                i - 1,
            ) by {
                assert forall|k: int| 0 <= k < i - 1 implies (#[trigger] rest[k]).name != name by {
                    assert(rest[k] == s[k + 1]);
                }
            }
            assert forall|k: int| 0 <= k < rest.len() implies #[trigger] rest[k] == s[k + 1] by {
            }
            if first_named(s, name) is None {
                assert forall|k: int| 0 <= k < s.len() implies (#[trigger] s[k]).name != name by {
                    if k > 0 {
                        assert(rest[k - 1].name != name);
                    }
                }
            }
        }
    }
}

/// The first profile of a name is the first of its like with that name.
proof fn lemma_first_by_key(s: Seq<ProfileForm>, name: Seq<char>)
    ensures
        first_named(s, name) == first_named(order::with_key(s, sort_key(), lowercase(name)), name),
    decreases s.len(),
{
    if s.len() > 0 {
        lemma_first_by_key(s.skip(1), name);
        let rest = order::with_key(s.skip(1), sort_key(), lowercase(name));
        if lowercase(s[0].name) == lowercase(name) {
            assert((seq![s[0]] + rest).skip(1) =~= rest);
        }
    }
}

proof fn lemma_first_pushed(s: Seq<ProfileForm>, p: ProfileForm, name: Seq<char>)
    ensures
        first_named(s.push(p), name) == (if first_named(s, name) is Some {
            first_named(s, name)
        } else if p.name == name {
            Some(p)
        } else {
            None
        }),
    decreases s.len(),
{
    if s.len() == 0 {
        assert(s.push(p).skip(1) =~= s);
    } else {
        lemma_first_pushed(s.skip(1), p, name);
        assert(s.push(p).skip(1) =~= s.skip(1).push(p));
    }
}

impl ProfileStore {
    /// A store with the profiles read from its file.
    pub fn new(path: FilePath, profiles: Vec<ConnectionProfile>) -> (r: ProfileStore)
        ensures
            r.path == path,
            r.profiles == profiles,
    {
        ProfileStore { path, profiles }
    }

    /// The profiles.
    pub open spec fn listed(self) -> Seq<ProfileForm> {
        forms(self.profiles@)
    }

    fn position(&self, name: &str) -> (r: Option<usize>)
        ensures
            match r {
                Some(i) => first_at(self.listed(), name@, i as int),
                None => first_named(self.listed(), name@) is None,
            },
    {
        let ghost s = self.listed();
        let mut i: usize = 0;
        while i < self.profiles.len()
            invariant
                i <= self.profiles@.len(),
                s == self.listed(),
                forall|k: int| 0 <= k < i ==> (#[trigger] s[k]).name != name@,
            decreases self.profiles@.len() - i,
        {
            assert(s[i as int] == self.profiles@[i as int]@);
            if text::same_text(self.profiles[i].name.as_str(), name) {
                return Some(i);
            }
            i += 1;
        }
        proof {
            lemma_first_named(s, name@);
        }
        None
    }

    /// Saves a profile in place of the one with its name; a new name is added, and all
    /// profiles are sorted by name without regard to case.
    pub fn upsert(&mut self, profile: ConnectionProfile)
        ensures
            final(self).path == old(self).path,
            upserted(old(self).listed(), profile@, final(self).listed()),
    {
        let ghost before = self.listed();
        match self.position(profile.name.as_str()) {
            Some(i) => {
                self.profiles.set(i, profile);
                proof {
                    lemma_first_named(before, profile@.name);
                    assert(self.listed() =~= before.update(i as int, profile@));
                    assert(first_at(before, profile@.name, i as int));
                }
            },
            None => {
                let mut list: Vec<ConnectionProfile> = Vec::new();
                list.append(&mut self.profiles);
                list.push(profile);
                assert(forms(list@) =~= before.push(profile@));
                self.profiles = sort_profiles(list);
            },
        }
    }

    /// Removes the profiles with a name; whether there were any.
    pub fn remove(&mut self, name: &str) -> (r: bool)
        ensures
            final(self).path == old(self).path,
            final(self).listed() == without(old(self).listed(), name@),
            r == (first_named(old(self).listed(), name@) is Some),
    {
        let ghost s = self.listed();
        let size: usize = self.profiles.len();
        let mut kept: Vec<ConnectionProfile> = Vec::new();
        let mut found = false;
        let mut n: usize = 0;
        assert(s.take(0) =~= Seq::<ProfileForm>::empty());
        assert(forms(kept@) =~= Seq::<ProfileForm>::empty());
        assert(self.listed() =~= s.skip(0));
        while n < size
            invariant
                n <= size,
                size == s.len(),
                self.path == old(self).path,
                s == old(self).listed(),
                self.listed() == s.skip(n as int),
                forms(kept@) == without(s.take(n as int), name@),
                found == (exists|k: int| 0 <= k < n && (#[trigger] s[k]).name == name@),
            decreases size - n,
        {
            assert(self.listed().len() == self.profiles@.len());
            let ghost all = self.profiles@;
            let profile = self.profiles.remove(0);
            assert(profile@ == forms(all)[0]);
            assert(self.listed() =~= forms(all).skip(1));
            assert(self.listed() =~= s.skip(n + 1));
            assert(s.take(n + 1).drop_last() =~= s.take(n as int));
            assert(s.take(n + 1).last() == profile@);
            if text::same_text(profile.name.as_str(), name) {
                found = true;
                assert(s[n as int].name == name@);
            } else {
                let ghost before = kept@;
                kept.push(profile);
                assert(forms(kept@) =~= forms(before).push(profile@));
            }
            n += 1;
        }
        assert(s.take(size as int) =~= s);
        proof {
            lemma_first_named(s, name@);
        }
        self.profiles = kept;
        found
    }

    /// The profile with a name.
    pub fn find(&self, name: &str) -> (r: Option<ConnectionProfile>)
        ensures
            match r {
                Some(p) => first_named(self.listed(), name@) == Some(p@),
                None => first_named(self.listed(), name@) is None,
            },
    {
        match self.position(name) {
            Some(i) => {
                proof {
                    lemma_first_named(self.listed(), name@);
                    assert(self.listed()[i as int] == self.profiles@[i as int]@);
                }
                Some(self.profiles[i].copied())
            },
            None => None,
        }
    }

    /// All profiles.
    pub fn profiles(&self) -> (r: &Vec<ConnectionProfile>)
        ensures
            *r == self.profiles,
    {
        &self.profiles
    }
}

/// A saved profile is found under its name, and no other name finds anything else than
/// before.
pub proof fn law_saved_profile_is_found(
    before: Seq<ProfileForm>,
    profile: ProfileForm,
    now: Seq<ProfileForm>,
    other: Seq<char>,
)
    requires
        upserted(before, profile, now),
        other != profile.name,
    ensures
        first_named(now, profile.name) == Some(profile),
        first_named(now, other) == first_named(before, other),
{
    let name = profile.name;
    lemma_first_named(before, name);
    lemma_first_named(before, other);
    lemma_first_named(now, name);
    lemma_first_named(now, other);
    if first_named(before, name) is Some {
        let i = choose|i: int| #[trigger]
            first_at(before, name, i) && now == before.update(i, profile);
        assert(first_at(now, name, i));
        assert forall|k: int| #[trigger] first_at(before, other, k) implies first_at(
            now,
            other,
            k,
        ) by {
            assert(k != i);
        }
        if first_named(before, other) is None {
            assert forall|k: int| 0 <= k < now.len() implies (#[trigger] now[k]).name != other by {
                if k != i {
                    assert(now[k] == before[k]);
                }
            }
        }
    } else {
        let added = before.push(profile);
        lemma_first_pushed(before, profile, name);
        lemma_first_pushed(before, profile, other);
        lemma_first_by_key(now, name);
        lemma_first_by_key(now, other);
        lemma_first_by_key(added, name);
        lemma_first_by_key(added, other);
        assert(order::with_key(now, sort_key(), lowercase(name)) == order::with_key(
            added,
            sort_key(),
            lowercase(name),
        ));
        assert(order::with_key(now, sort_key(), lowercase(other)) == order::with_key(
            added,
            sort_key(),
            lowercase(other),
        ));
    }
}

/// After removal nothing is found under the name, and every other name finds what it found
/// before.
pub proof fn law_removed_profile_is_gone(s: Seq<ProfileForm>, name: Seq<char>, other: Seq<char>)
    requires
        other != name,
    ensures
        first_named(without(s, name), name) is None,
        first_named(without(s, name), other) == first_named(s, other),
    decreases s.len(),
{
    if s.len() > 0 {
        let front = s.drop_last();
        law_removed_profile_is_gone(front, name, other);
        assert(s =~= front.push(s.last()));
        lemma_first_pushed(front, s.last(), name);
        lemma_first_pushed(front, s.last(), other);
        lemma_first_pushed(without(front, name), s.last(), name);
        lemma_first_pushed(without(front, name), s.last(), other);
    }
}

/// Whether no two profiles have one name.
pub open spec fn names_differ(s: Seq<ProfileForm>) -> bool {
    forall|i: int, j: int|
        0 <= i < j < s.len() ==> (#[trigger] s[i]).name != (#[trigger] s[j]).name
}

/// Whether profiles stand in the order of their names in lower case.
pub open spec fn in_name_order(s: Seq<ProfileForm>) -> bool {
    order::sorted(s, sort_key(), text_order())
}

/// Saving a profile keeps the names different and in order; where the name is new, the profiles
/// are in order whatever they were before.
pub proof fn law_saving_keeps_names_in_order(
    before: Seq<ProfileForm>,
    profile: ProfileForm,
    now: Seq<ProfileForm>,
)
    requires
        upserted(before, profile, now),
    ensures
        names_differ(before) ==> names_differ(now),
        in_name_order(before) ==> in_name_order(now),
        first_named(before, profile.name) is None ==> in_name_order(now),
{
    lemma_first_named(before, profile.name);
    if first_named(before, profile.name) is Some {
        let at = choose|i: int| #[trigger]
            first_at(before, profile.name, i) && now == before.update(i, profile);
        assert forall|i: int| 0 <= i < now.len() implies (#[trigger] now[i]).name
            == before[i].name by {}
        assert forall|i: int, j: int|
            in_name_order(before) && 0 <= i < j < now.len() implies !text_order()(
            sort_key()(#[trigger] now[j]),
            sort_key()(#[trigger] now[i]),
        ) by {
            assert(!text_order()(sort_key()(before[j]), sort_key()(before[i])));
        }
    } else {
        let added = before.push(profile);
        assert forall|i: int, j: int|
            names_differ(before) && 0 <= i < j < now.len() implies (#[trigger] now[i]).name != (
        #[trigger] now[j]).name by {
            if now[i].name == now[j].name {
                order::lemma_sorted_pairs(added, now, sort_key(), text_order(), i, j);
                let (a, b) = choose|a: int, b: int|
                    0 <= a < b < added.len() && #[trigger] added[a] == now[i] && #[trigger] added[b]
                        == now[j];
                assert(before[a].name == added[b].name);
            }
        }
    }
}

/// Removing a profile keeps the names different and in order.
pub proof fn law_removing_keeps_names_in_order(s: Seq<ProfileForm>, name: Seq<char>)
    ensures
        names_differ(s) ==> names_differ(without(s, name)),
        in_name_order(s) ==> in_name_order(without(s, name)),
    decreases s.len(),
{
    if s.len() > 0 {
        let front = s.drop_last();
        let kept = without(front, name);
        law_removing_keeps_names_in_order(front, name);
        lemma_without_members(front, name);
        let all = without(s, name);
        assert forall|i: int, j: int|
            names_differ(s) && 0 <= i < j < all.len() implies (#[trigger] all[i]).name != (
        #[trigger] all[j]).name by {
            assert(names_differ(front));
            if j == kept.len() {
                let a = choose|a: int| 0 <= a < front.len() && front[a] == kept[i];
                assert(s[a].name != s[s.len() - 1].name);
            }
        }
        assert forall|i: int, j: int|
            in_name_order(s) && 0 <= i < j < all.len() implies !text_order()(
            sort_key()(#[trigger] all[j]),
            sort_key()(#[trigger] all[i]),
        ) by {
            assert(in_name_order(front)) by {
                assert forall|a: int, b: int| 0 <= a < b < front.len() implies !text_order()(
                    sort_key()(#[trigger] front[b]),
                    sort_key()(#[trigger] front[a]),
                ) by {
                    assert(!text_order()(sort_key()(s[b]), sort_key()(s[a])));
                }
            }
            if j == kept.len() {
                let a = choose|a: int| 0 <= a < front.len() && front[a] == kept[i];
                assert(!text_order()(sort_key()(s[s.len() - 1]), sort_key()(s[a])));
            }
        }
    }
}

proof fn lemma_without_members(s: Seq<ProfileForm>, name: Seq<char>)
    ensures
        forall|i: int|
            0 <= i < without(s, name).len() ==> s.contains(#[trigger] without(s, name)[i]),
    decreases s.len(),
{
    if s.len() > 0 {
        let front = s.drop_last();
        let kept = without(front, name);
        lemma_without_members(front, name);
        assert forall|i: int| 0 <= i < without(s, name).len() implies s.contains(
            #[trigger] without(s, name)[i],
        ) by {
            if i < kept.len() {
                assert(front.contains(kept[i]));
                let a = choose|a: int| 0 <= a < front.len() && front[a] == kept[i];
                assert(s[a] == kept[i]);
            } else {
                assert(s[s.len() - 1] == s.last());
            }
        }
    }
}

// ---------------------------------------------------------------- file and listing

/// The components of the profiles' path below a base directory that environment variables name:
/// the configuration directory, else `.config` in the home directory, else the application
/// data, else a directory next to the program.
pub open spec fn profile_path_spec(
    config_home: Option<Seq<char>>,
    home: Option<Seq<char>>,
    app_data: Option<Seq<char>>,
) -> Seq<Seq<char>> {
    let base = if config_home is Some {
        seq![config_home->0]
    } else if home is Some {
        seq![home->0, ".config"@]
    } else if app_data is Some {
        seq![app_data->0]
    } else {
        seq![".pasta_p2p"@]
    };
    base + seq!["pasta_p2p"@, "profiles.json"@]
}

/// The components of the profiles' path, to be joined in order.
pub fn profile_path(
    config_home: Option<String>,
    home: Option<String>,
    app_data: Option<String>,
) -> (r: Vec<String>)
    ensures
        text::texts(r@) == profile_path_spec(
            text::text_in(config_home),
            text::text_in(home),
            text::text_in(app_data),
        ),
{
    let mut r: Vec<String> = Vec::new();
    if let Some(dir) = &config_home {
        r.push(dir.as_str().to_owned());
    } else if let Some(dir) = &home {
        r.push(dir.as_str().to_owned());
        r.push(".config".to_owned());
    } else if let Some(dir) = &app_data {
        r.push(dir.as_str().to_owned());
    } else {
        r.push(".pasta_p2p".to_owned());
    }
    r.push("pasta_p2p".to_owned());
    r.push("profiles.json".to_owned());
    assert(text::texts(r@) =~= profile_path_spec(
        text::text_in(config_home),
        text::text_in(home),
        text::text_in(app_data),
    ));
    r
}

/// The line that lists a profile.
pub open spec fn profile_line(p: ProfileForm) -> Seq<char> {
    "- "@ + p.name + (match p.alias {
        Some(alias) => " ("@ + alias + ")"@,
        None => Seq::empty(),
    }) + " -> "@ + p.peer.text_spec() + (if p.key is Some {
        " • chave armazenada"@
    } else {
        ""@
    })
}

/// The lines that list the profiles.
pub open spec fn listing(s: Seq<ProfileForm>) -> Seq<Seq<char>> {
    if s.len() == 0 {
        seq!["nenhum perfil salvo"@]
    } else {
        seq!["perfis salvos:"@] + s.map_values(|p: ProfileForm| profile_line(p))
    }
}

/// The lines that list the profiles of a store.
pub fn profile_lines(store: &ProfileStore) -> (r: Vec<String>)
    ensures
        text::texts(r@) == listing(store.listed()),
{
    let mut r: Vec<String> = Vec::new();
    if store.profiles.len() == 0 {
        r.push("nenhum perfil salvo".to_owned());
        assert(text::texts(r@) =~= listing(store.listed()));
        return r;
    }
    r.push("perfis salvos:".to_owned());
    let ghost s = store.listed();
    let ghost lines = listing(s);
    let mut i: usize = 0;
    assert(text::texts(r@) =~= lines.take(1));
    while i < store.profiles.len()
        invariant
            i <= store.profiles@.len(),
            s == store.listed(),
            s.len() > 0,
            lines == listing(s),
            text::texts(r@) == lines.take(i + 1),
        decreases store.profiles@.len() - i,
    {
        let profile = &store.profiles[i];
        let mut line = "- ".to_owned();
        line.append(profile.name.as_str());
        if let Some(alias) = &profile.alias {
            line.append(" (");
            line.append(alias.as_str());
            line.append(")");
        }
        line.append(" -> ");
        line.append(profile.peer.text().as_str());
        if profile.key.is_some() {
            line.append(" • chave armazenada");
        } else {
            line.append("");
        }
        assert(s[i as int] == profile@);
        assert(line@ =~= profile_line(profile@));
        let ghost before = r@;
        r.push(line);
        assert(text::texts(r@) =~= text::texts(before).push(line@));
        assert(lines.take(i + 2) =~= lines.take(i + 1).push(profile_line(s[i as int])));
        i += 1;
    }
    assert(lines.take(i + 1) =~= lines);
    r
}

// ---------------------------------------------------------------- laws

/// The profile of a name is the first that has it; where none has it, there is none.
pub proof fn law_first_of_the_name_is_found(s: Seq<ProfileForm>, name: Seq<char>, i: int)
    ensures
        0 <= i < s.len() && s[i].name == name && (forall|k: int|
            0 <= k < i ==> (#[trigger] s[k]).name != name) ==> first_named(s, name) == Some(s[i]),
        (forall|k: int| 0 <= k < s.len() ==> (#[trigger] s[k]).name != name) ==> first_named(
            s,
            name,
        ) is None,
    decreases s.len(),
{
    if s.len() > 0 {
        let rest = s.skip(1);
        law_first_of_the_name_is_found(rest, name, i - 1);
        assert forall|k: int| 0 <= k < rest.len() implies #[trigger] rest[k] == s[k + 1] by {}
        assert(i > 0 && i < s.len() ==> rest[i - 1] == s[i]);
    }
}

/// Removing a name takes every profile that has it and no other; the others stay in their order.
pub proof fn law_removing_takes_only_the_name(s: Seq<ProfileForm>, name: Seq<char>)
    ensures
        without(s, name) == s.filter(|p: ProfileForm| p.name != name),
    decreases s.len(),
{
    reveal(Seq::filter);
    if s.len() > 0 {
        law_removing_takes_only_the_name(s.drop_last(), name);
    }
}

/// Saving a profile of a known name puts it in the place of the first of that name, and leaves the
/// others as they are.
pub proof fn law_known_profile_is_replaced_in_place(
    before: Seq<ProfileForm>,
    profile: ProfileForm,
    now: Seq<ProfileForm>,
    i: int,
)
    requires
        upserted(before, profile, now),
        0 <= i < before.len(),
        before[i].name == profile.name,
        forall|k: int| 0 <= k < i ==> (#[trigger] before[k]).name != profile.name,
    ensures
        now == before.update(i, profile),
{
    law_first_of_the_name_is_found(before, profile.name, i);
    let j = choose|j: int| #[trigger]
        first_at(before, profile.name, j) && now == before.update(j, profile);
    if j < i {
        assert(before[j].name != profile.name);
    } else if i < j {
        assert(before[i].name != profile.name);
    }
}

/// Saving a profile of a new name adds it to the others and sorts them all by their names in lower
/// case; profiles whose names differ in nothing else stay in their order, the new one behind them.
pub proof fn law_new_profile_is_sorted_in(
    before: Seq<ProfileForm>,
    profile: ProfileForm,
    now: Seq<ProfileForm>,
    i: int,
    j: int,
    lower: Seq<char>,
)
    requires
        upserted(before, profile, now),
        forall|k: int| 0 <= k < before.len() ==> (#[trigger] before[k]).name != profile.name,
    ensures
        now.len() == before.len() + 1,
        0 <= i < j < now.len() ==> !text::precedes(
            lowercase(now[j].name),
            lowercase(now[i].name),
        ),
        now.filter(|p: ProfileForm| lowercase(p.name) == lower) == before.push(profile).filter(
            |p: ProfileForm| lowercase(p.name) == lower,
        ),
{
    law_first_of_the_name_is_found(before, profile.name, 0);
    order::law_sorting_keeps_the_items(
        before.push(profile),
        now,
        sort_key(),
        text_order(),
        i,
        j,
        lower,
        |p: ProfileForm| lowercase(p.name) == lower,
    );
}

/// The profiles are kept in the directory of the desktop's configuration, else in that of the user,
/// else in that of the system's applications, else beside the program.
pub proof fn law_profiles_have_their_place(a: Seq<char>, home: Option<Seq<char>>, b: Option<Seq<char>>)
    ensures
        profile_path_spec(Some(a), home, b) == seq![a, "pasta_p2p"@, "profiles.json"@],
        profile_path_spec(None, Some(a), b) == seq![
            a,
            ".config"@,
            "pasta_p2p"@,
            "profiles.json"@,
        ],
        profile_path_spec(None, None, Some(a)) == seq![a, "pasta_p2p"@, "profiles.json"@],
        profile_path_spec(None, None, None) == seq![
            ".pasta_p2p"@,
            "pasta_p2p"@,
            "profiles.json"@,
        ],
{
    assert(profile_path_spec(Some(a), home, b) =~= seq![a, "pasta_p2p"@, "profiles.json"@]);
    assert(profile_path_spec(None, Some(a), b) =~= seq![
        a,
        ".config"@,
        "pasta_p2p"@,
        "profiles.json"@,
    ]);
    assert(profile_path_spec(None, None, Some(a)) =~= seq![a, "pasta_p2p"@, "profiles.json"@]);
    assert(profile_path_spec(None, None, None) =~= seq![
        ".pasta_p2p"@,
        "pasta_p2p"@,
        "profiles.json"@,
    ]);
}

/// A profile is listed by its name, its alias in brackets where it has one, its address, and a remark
/// where a key is kept; the key itself is not shown.
pub proof fn law_profiles_are_listed(name: Seq<char>, peer: SocketAddr, alias: Seq<char>, key: Seq<char>)
    ensures
        profile_line(ProfileForm { name, peer, alias: None, key: None }) == "- "@ + name + " -> "@
            + peer.text_spec(),
        profile_line(ProfileForm { name, peer, alias: Some(alias), key: None }) == "- "@ + name
            + " ("@ + alias + ")"@ + " -> "@ + peer.text_spec(),
        profile_line(ProfileForm { name, peer, alias: None, key: Some(key) }) == "- "@ + name
            + " -> "@ + peer.text_spec() + " • chave armazenada"@,
        profile_line(ProfileForm { name, peer, alias: Some(alias), key: Some(key) }) == "- "@ + name
            + " ("@ + alias + ")"@ + " -> "@ + peer.text_spec() + " • chave armazenada"@,
{
    reveal_strlit("");
    let none = Seq::<char>::empty();
    assert(""@ =~= none);
    let head = "- "@ + name;
    assert(head + none =~= head);
    let plain = head + " -> "@ + peer.text_spec();
    assert(plain + ""@ =~= plain);
    let aliased = head + (" ("@ + alias + ")"@);
    assert(aliased =~= head + " ("@ + alias + ")"@);
    let whole = head + " ("@ + alias + ")"@ + " -> "@ + peer.text_spec();
    assert(whole + ""@ =~= whole);
}

/// The list has a heading and a line for each profile, in their order; where there is none, it says
/// so.
pub proof fn law_every_profile_is_listed(s: Seq<ProfileForm>, i: int)
    ensures
        s.len() == 0 ==> listing(s) == seq!["nenhum perfil salvo"@],
        s.len() > 0 ==> listing(s).len() == s.len() + 1 && listing(s)[0] == "perfis salvos:"@,
        0 <= i < s.len() ==> listing(s)[i + 1] == profile_line(s[i]),
{
}

} // verus!
