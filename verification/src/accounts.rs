//! Account metadata, an in-memory model of the platform secret store, and
//! the read-modify-write operations of the account list: add, edit,
//! delete, secret lookup and the listing of live codes.

use vstd::prelude::*;

use crate::errors::ParseError;
use crate::errors::StoreError;
use crate::errors::TotpError;
use crate::parsing::parsing_qr_string_to_accounts;
use crate::parsing::qr_parse_spec;
use crate::totp::accounts_get_valid_secret;
use crate::totp::b32_decode;
use crate::totp::b32_decoded;
use crate::totp::expiry_for;
use crate::totp::expiry_spec;
use crate::totp::generate_code;
use crate::totp::normalized_secret;
use crate::totp::totp_sha1_code;

verus! {

/// Persisted account metadata. The `secret` field exists only transiently
/// during creation and import; the list is always written with it absent.
pub struct Account {
    pub id: String,
    pub name: String,
    pub secret: Option<String>,
}

/// The mathematical value of an [`Account`].
pub ghost struct AccountView {
    pub id: Seq<char>,
    pub name: Seq<char>,
    pub secret: Option<Seq<char>>,
}

impl View for Account {
    type V = AccountView;

    open spec fn view(&self) -> AccountView {
        AccountView { id: self.id@, name: self.name@, secret: self.secret.deep_view() }
    }
}

impl DeepView for Account {
    type V = AccountView;

    open spec fn deep_view(&self) -> AccountView {
        self@
    }
}

/// The display record handed to a caller that lists live codes; never
/// persisted.
pub struct AccountDto {
    pub id: String,
    pub name: String,
    pub code: String,
    pub expires_at: u64,
}

/// The mathematical value of an [`AccountDto`].
pub ghost struct AccountDtoView {
    pub id: Seq<char>,
    pub name: Seq<char>,
    pub code: Seq<char>,
    pub expires_at: u64,
}

impl View for AccountDto {
    type V = AccountDtoView;

    open spec fn view(&self) -> AccountDtoView {
        AccountDtoView { id: self.id@, name: self.name@, code: self.code@, expires_at: self.expires_at }
    }
}

/// True when some entry of `s` carries key `k`.
pub open spec fn store_has_key(s: Seq<(Seq<char>, Seq<char>)>, k: Seq<char>) -> bool {
    exists|i: int| 0 <= i < s.len() && (#[trigger] s[i]).0 == k
}

/// True when `s` holds the entry `(k, v)`.
pub open spec fn store_has_pair(s: Seq<(Seq<char>, Seq<char>)>, k: Seq<char>, v: Seq<char>) -> bool {
    s.contains((k, v))
}

/// An in-memory model of the platform secret store: entries addressed by
/// key, with the `NotFound` discipline of an OS credential vault. The
/// account operations below are verified against it, and a caller backed
/// by a real vault follows the same contracts.
pub struct SecretKeyStore {
    entries: Vec<(String, String)>,
}

impl View for SecretKeyStore {
    type V = Seq<(Seq<char>, Seq<char>)>;

    closed spec fn view(&self) -> Seq<(Seq<char>, Seq<char>)> {
        self.entries@.map_values(|p: (String, String)| (p.0@, p.1@))
    }
}

/// Entries with distinct keys except at positions carrying key `k` are
/// mutually contained; then every key other than `k` resolves alike.
proof fn lemma_store_frame(
    o: Seq<(Seq<char>, Seq<char>)>,
    f: Seq<(Seq<char>, Seq<char>)>,
    k: Seq<char>,
)
    requires
        forall|j: int| 0 <= j < f.len() && (#[trigger] f[j]).0 != k ==> o.contains(f[j]),
        forall|j: int| 0 <= j < o.len() && (#[trigger] o[j]).0 != k ==> f.contains(o[j]),
    ensures
        forall|k2: Seq<char>| k2 != k ==> (store_has_key(f, k2) <==> store_has_key(o, k2)),
        forall|k2: Seq<char>, v2: Seq<char>| k2 != k ==> (store_has_pair(f, k2, v2)
            <==> store_has_pair(o, k2, v2)),
{
    assert forall|k2: Seq<char>| k2 != k implies (store_has_key(f, k2) <==> store_has_key(
        o,
        k2,
    )) by {
        if store_has_key(f, k2) {
            let j = choose|j: int| 0 <= j < f.len() && (#[trigger] f[j]).0 == k2;
            assert(o.contains(f[j]));
            let m = choose|m: int| 0 <= m < o.len() && o[m] == f[j];
            assert(store_has_key(o, k2));
        }
        if store_has_key(o, k2) {
            let j = choose|j: int| 0 <= j < o.len() && (#[trigger] o[j]).0 == k2;
            assert(f.contains(o[j]));
            let m = choose|m: int| 0 <= m < f.len() && f[m] == o[j];
            assert(store_has_key(f, k2));
        }
    }
    assert forall|k2: Seq<char>, v2: Seq<char>| k2 != k implies (store_has_pair(f, k2, v2)
        <==> store_has_pair(o, k2, v2)) by {
        if store_has_pair(f, k2, v2) {
            let j = choose|j: int| 0 <= j < f.len() && f[j] == (k2, v2);
            assert(f[j].0 == k2);
            assert(o.contains(f[j]));
        }
        if store_has_pair(o, k2, v2) {
            let j = choose|j: int| 0 <= j < o.len() && o[j] == (k2, v2);
            assert(o[j].0 == k2);
            assert(f.contains(o[j]));
        }
    }
}

impl SecretKeyStore {
    /// Keys are pairwise distinct, so each key resolves to at most one value.
    pub open spec fn wf(&self) -> bool {
        forall|i: int, j: int| 0 <= i < j < self@.len() ==> (#[trigger] self@[i]).0 != (
        #[trigger] self@[j]).0
    }

    /// An empty store.
    pub fn new() -> (r: SecretKeyStore)
        ensures
            r.wf(),
            r@.len() == 0,
    {
        SecretKeyStore { entries: Vec::new() }
    }

    /// Looks a key up; `NotFound` exactly when no entry carries it.
    pub fn get(&self, key: &str) -> (r: Result<String, StoreError>)
        requires
            self.wf(),
        ensures
            (match r {
                Ok(v) => store_has_pair(self@, key@, v@),
                Err(e) => e == StoreError::NotFound && !store_has_key(self@, key@),
            }),
    {
        let owned: String = key.to_owned();
        let mut i: usize = 0;
        while i < self.entries.len()
            invariant
                self.wf(),
                i <= self.entries.len(),
                owned@ == key@,
                forall|j: int| 0 <= j < i ==> (#[trigger] self@[j]).0 != key@,
            decreases self.entries.len() - i,
        {
            if self.entries[i].0 == owned {
                let v = self.entries[i].1.clone();
                proof {
                    assert(self@[i as int] == (key@, v@));
                    assert(self@.contains((key@, v@)));
                }
                return Ok(v);
            }
            i += 1;
        }
        Err(StoreError::NotFound)
    }

    /// Stores a value under a key, replacing any previous value; every
    /// other key resolves as before.
    pub fn set(&mut self, key: &str, value: &str)
        requires
            old(self).wf(),
        ensures
            final(self).wf(),
            store_has_key(final(self)@, key@),
            store_has_pair(final(self)@, key@, value@),
            forall|k2: Seq<char>| k2 != key@ ==> (store_has_key(final(self)@, k2)
                <==> store_has_key(old(self)@, k2)),
            forall|k2: Seq<char>, v2: Seq<char>| k2 != key@ ==> (store_has_pair(
                final(self)@,
                k2,
                v2,
            ) <==> store_has_pair(old(self)@, k2, v2)),
    {
        let owned_k: String = key.to_owned();
        let owned_v: String = value.to_owned();
        let mut i: usize = 0;
        while i < self.entries.len()
            invariant
                old(self).wf(),
                i <= self.entries.len(),
                owned_k@ == key@,
                owned_v@ == value@,
                self == old(self),
                forall|j: int| 0 <= j < i ==> (#[trigger] self@[j]).0 != key@,
            decreases self.entries.len() - i,
        {
            if self.entries[i].0 == owned_k {
                self.entries[i] = (owned_k, owned_v);
                proof {
                    let o = old(self)@;
                    let f = self@;
                    let ii = i as int;
                    assert(f[ii] == (key@, value@));
                    assert(forall|j: int| 0 <= j < f.len() && j != ii ==> f[j] == o[j]);
                    assert(f[ii].0 == o[ii].0);
                    assert forall|a: int, b: int| 0 <= a < b < f.len() implies (
                    #[trigger] f[a]).0 != (#[trigger] f[b]).0 by {
                        assert(f[a].0 == o[a].0 && f[b].0 == o[b].0);
                    }
                    assert(f.contains((key@, value@)));
                    assert forall|j: int| 0 <= j < f.len() && (#[trigger] f[j]).0 != key@
                        implies o.contains(f[j]) by {
                        assert(f[j] == o[j]);
                        assert(o[j] == f[j]);
                    }
                    assert forall|j: int| 0 <= j < o.len() && (#[trigger] o[j]).0 != key@
                        implies f.contains(o[j]) by {
                        assert(j != ii);
                        assert(f[j] == o[j]);
                    }
                    lemma_store_frame(o, f, key@);
                }
                return ;
            }
            i += 1;
        }
        self.entries.push((owned_k, owned_v));
        proof {
            let o = old(self)@;
            let f = self@;
            let n = o.len() as int;
            assert(f.len() == n + 1);
            assert(f[n] == (key@, value@));
            assert(forall|j: int| 0 <= j < n ==> f[j] == o[j]);
            assert forall|a: int, b: int| 0 <= a < b < f.len() implies (#[trigger] f[a]).0 != (
            #[trigger] f[b]).0 by {
                if b == n {
                    assert(f[a] == o[a]);
                } else {
                    assert(f[a] == o[a] && f[b] == o[b]);
                }
            }
            assert(f.contains((key@, value@)));
            assert forall|j: int| 0 <= j < f.len() && (#[trigger] f[j]).0 != key@ implies o.contains(
                f[j],
            ) by {
                assert(j != n);
                assert(f[j] == o[j]);
                assert(o[j] == f[j]);
            }
            assert forall|j: int| 0 <= j < o.len() && (#[trigger] o[j]).0 != key@ implies f.contains(
                o[j],
            ) by {
                assert(f[j] == o[j]);
            }
            lemma_store_frame(o, f, key@);
        }
    }

    /// Removes the entry under a key; `NotFound`, and no change, exactly
    /// when no entry carries it. Every other key resolves as before.
    pub fn delete(&mut self, key: &str) -> (r: Result<(), StoreError>)
        requires
            old(self).wf(),
        ensures
            final(self).wf(),
            (match r {
                Ok(()) => store_has_key(old(self)@, key@) && !store_has_key(final(self)@, key@)
                    && (forall|k2: Seq<char>| k2 != key@ ==> (store_has_key(final(self)@, k2)
                    <==> store_has_key(old(self)@, k2))) && (forall|k2: Seq<char>, v2: Seq<char>|
                    k2 != key@ ==> (store_has_pair(final(self)@, k2, v2) <==> store_has_pair(
                    old(self)@,
                    k2,
                    v2,
                ))),
                Err(e) => e == StoreError::NotFound && !store_has_key(old(self)@, key@)
                    && final(self)@ == old(self)@,
            }),
    {
        let owned_k: String = key.to_owned();
        let mut i: usize = 0;
        while i < self.entries.len()
            invariant
                old(self).wf(),
                i <= self.entries.len(),
                owned_k@ == key@,
                self == old(self),
                forall|j: int| 0 <= j < i ==> (#[trigger] self@[j]).0 != key@,
            decreases self.entries.len() - i,
        {
            if self.entries[i].0 == owned_k {
                self.entries.remove(i);
                proof {
                    let o = old(self)@;
                    let f = self@;
                    let ii = i as int;
                    assert(o[ii].0 == key@);
                    assert(store_has_key(o, key@));
                    assert(f.len() == o.len() - 1);
                    assert(forall|j: int| 0 <= j < ii ==> f[j] == o[j]);
                    assert(forall|j: int| ii <= j < f.len() ==> f[j] == o[j + 1]);
                    assert forall|j: int| 0 <= j < f.len() implies (#[trigger] f[j]).0 != key@ by {
                        if j < ii {
                            assert(f[j] == o[j]);
                        } else {
                            assert(f[j] == o[j + 1]);
                            assert(o[j + 1].0 != o[ii].0);
                        }
                    }
                    assert(!store_has_key(f, key@));
                    assert forall|a: int, b: int| 0 <= a < b < f.len() implies (
                    #[trigger] f[a]).0 != (#[trigger] f[b]).0 by {
                        let aa: int = if a < ii { a } else { a + 1 };
                        let bb: int = if b < ii { b } else { b + 1 };
                        assert(f[a] == o[aa] && f[b] == o[bb]);
                    }
                    assert forall|j: int| 0 <= j < f.len() && (#[trigger] f[j]).0 != key@
                        implies o.contains(f[j]) by {
                        if j < ii {
                            assert(o[j] == f[j]);
                        } else {
                            assert(o[j + 1] == f[j]);
                        }
                    }
                    assert forall|j: int| 0 <= j < o.len() && (#[trigger] o[j]).0 != key@
                        implies f.contains(o[j]) by {
                        if j < ii {
                            assert(f[j] == o[j]);
                        } else {
                            assert(j != ii);
                            assert(f[j - 1] == o[j]);
                        }
                    }
                    lemma_store_frame(o, f, key@);
                }
                return Ok(());
            }
            i += 1;
        }
        Err(StoreError::NotFound)
    }
}

/// Relies on uuid's `Uuid::new_v4` and its hyphenated rendering: a fresh
/// random identifier, 36 characters long. Nothing is assumed of its value
/// but the length.
#[verifier::external_body]
fn new_account_id() -> (r: String)
    ensures
        r@.len() == 36,
{
    uuid::Uuid::new_v4().to_string()
}

/// Appends a freshly identified account carrying `name`, stores its
/// padded secret under the fresh id, and persists no plaintext secret in
/// the list itself.
pub fn add_account(
    accounts: &mut Vec<Account>,
    store: &mut SecretKeyStore,
    name: String,
    secret_b32: String,
)
    requires
        old(store).wf(),
    ensures
        final(store).wf(),
        final(accounts).deep_view().len() == old(accounts).deep_view().len() + 1,
        forall|j: int|
            0 <= j < old(accounts).deep_view().len() ==> (#[trigger] final(accounts).deep_view()[j])
                == old(accounts).deep_view()[j],
        final(accounts).deep_view().last().name == name@,
        final(accounts).deep_view().last().secret is None,
        exists|fresh: Seq<char>|
            #![trigger store_has_pair(final(store)@, fresh, normalized_secret(secret_b32@))]
            fresh.len() == 36 && final(accounts).deep_view() == old(accounts).deep_view().push(
                (AccountView { id: fresh, name: name@, secret: None }),
            ) && store_has_pair(final(store)@, fresh, normalized_secret(secret_b32@)) && (
            forall|k2: Seq<char>|
                k2 != fresh ==> (store_has_key(final(store)@, k2) <==> store_has_key(
                    old(store)@,
                    k2,
                ))) && (forall|k2: Seq<char>, v2: Seq<char>|
                k2 != fresh ==> (store_has_pair(final(store)@, k2, v2) <==> store_has_pair(
                    old(store)@,
                    k2,
                    v2,
                ))),
{
    let id = new_account_id();
    let ghost fresh: Seq<char> = id@;
    let secret = accounts_get_valid_secret(secret_b32);
    store.set(id.as_str(), secret.as_str());
    accounts.push(Account { id, name, secret: None });
    proof {
        assert(store_has_pair(store@, fresh, normalized_secret(secret_b32@)));
        assert(accounts.deep_view() =~= old(accounts).deep_view().push(
            (AccountView { id: fresh, name: name@, secret: None }),
        ));
    }
}

/// The account list after renaming the first entry that carries `id`, if
/// any: its name becomes `name`, everything else stays.
pub open spec fn rename_id_spec(s: Seq<AccountView>, id: Seq<char>, name: Seq<char>) -> Seq<
    AccountView,
>
    decreases s.len(),
{
    if s.len() == 0 {
        s
    } else if s[0].id == id {
        s.update(0, AccountView { id: s[0].id, name: name, secret: s[0].secret })
    } else {
        seq![s[0]] + rename_id_spec(s.skip(1), id, name)
    }
}

/// Stores the padded replacement secret under `id` and renames the first
/// matching metadata entry; an unknown id still updates the secret store
/// but leaves the list unchanged.
pub fn edit_account(
    accounts: &mut Vec<Account>,
    store: &mut SecretKeyStore,
    id: &str,
    name: String,
    secret_b32: String,
)
    requires
        old(store).wf(),
    ensures
        final(store).wf(),
        store_has_pair(final(store)@, id@, normalized_secret(secret_b32@)),
        forall|k2: Seq<char>| k2 != id@ ==> (store_has_key(final(store)@, k2) <==> store_has_key(
            old(store)@,
            k2,
        )),
        forall|k2: Seq<char>, v2: Seq<char>| k2 != id@ ==> (store_has_pair(final(store)@, k2, v2)
            <==> store_has_pair(old(store)@, k2, v2)),
        final(accounts).deep_view() == rename_id_spec(old(accounts).deep_view(), id@, name@),
{
    let secret = accounts_get_valid_secret(secret_b32);
    store.set(id, secret.as_str());
    let owned_id: String = id.to_owned();
    let ghost orig: Seq<AccountView> = accounts.deep_view();
    proof {
        assert(orig.skip(0) =~= orig);
        assert(orig.subrange(0, 0) + rename_id_spec(orig, id@, name@) =~= rename_id_spec(
            orig,
            id@,
            name@,
        ));
    }
    let mut i: usize = 0;
    while i < accounts.len()
        invariant
            i <= accounts.len(),
            owned_id@ == id@,
            secret@ == normalized_secret(secret_b32@),
            store.wf(),
            store_has_pair(store@, id@, normalized_secret(secret_b32@)),
            forall|k2: Seq<char>| k2 != id@ ==> (store_has_key(store@, k2) <==> store_has_key(
                old(store)@,
                k2,
            )),
            forall|k2: Seq<char>, v2: Seq<char>| k2 != id@ ==> (store_has_pair(store@, k2, v2)
                <==> store_has_pair(old(store)@, k2, v2)),
            accounts.deep_view() == orig,
            orig == old(accounts).deep_view(),
            forall|j: int| 0 <= j < i ==> (#[trigger] orig[j]).id != id@,
            rename_id_spec(orig, id@, name@) == orig.subrange(0, i as int) + rename_id_spec(
                orig.skip(i as int),
                id@,
                name@,
            ),
        decreases accounts.len() - i,
    {
        if accounts[i].id == owned_id {
            let a = accounts.remove(i);
            let ghost renamed = AccountView { id: orig[i as int].id, name: name@, secret: orig[i as int].secret };
            accounts.insert(i, Account { id: a.id, name, secret: a.secret });
            proof {
                let tail = orig.skip(i as int);
                assert(tail[0] == orig[i as int]);
                assert(tail[0].id == id@);
                assert(rename_id_spec(tail, id@, name@) == tail.update(0, renamed));
                assert(accounts.deep_view() =~= orig.subrange(0, i as int) + tail.update(0, renamed));
            }
            return ;
        }
        proof {
            let tail = orig.skip(i as int);
            assert(tail[0] == orig[i as int]);
            assert(tail[0].id != id@);
            assert(rename_id_spec(tail, id@, name@) == seq![tail[0]] + rename_id_spec(
                tail.skip(1),
                id@,
                name@,
            ));
            assert(tail.skip(1) =~= orig.skip(i as int + 1));
            assert(orig.subrange(0, i as int) + seq![tail[0]] =~= orig.subrange(0, i as int + 1));
            assert(orig.subrange(0, i as int) + (seq![tail[0]] + rename_id_spec(
                orig.skip(i as int + 1),
                id@,
                name@,
            )) =~= orig.subrange(0, i as int + 1) + rename_id_spec(
                orig.skip(i as int + 1),
                id@,
                name@,
            ));
        }
        i += 1;
    }
    proof {
        let tail = orig.skip(orig.len() as int);
        assert(tail.len() == 0);
        assert(rename_id_spec(tail, id@, name@) == tail);
        assert(orig.subrange(0, orig.len() as int) + tail =~= orig);
        assert(accounts.deep_view() =~= rename_id_spec(orig, id@, name@));
    }
}

/// The account list with every entry that carries `id` removed, order
/// kept.
pub open spec fn remove_id_spec(s: Seq<AccountView>, id: Seq<char>) -> Seq<AccountView>
    decreases s.len(),
{
    if s.len() == 0 {
        s
    } else {
        let rest = remove_id_spec(s.drop_last(), id);
        if s.last().id == id {
            rest
        } else {
            rest.push(s.last())
        }
    }
}

/// Deletes the stored secret under `id` first — surfacing `NotFound`
/// untouched when the secret is absent, even if the metadata list never
/// held the id — and only then removes the matching metadata entries.
pub fn delete_account(
    accounts: &mut Vec<Account>,
    store: &mut SecretKeyStore,
    id: &str,
) -> (r: Result<(), StoreError>)
    requires
        old(store).wf(),
    ensures
        final(store).wf(),
        (match r {
            Ok(()) => store_has_key(old(store)@, id@) && !store_has_key(final(store)@, id@) && (
            forall|k2: Seq<char>|
                k2 != id@ ==> (store_has_key(final(store)@, k2) <==> store_has_key(
                    old(store)@,
                    k2,
                ))) && (forall|k2: Seq<char>, v2: Seq<char>|
                k2 != id@ ==> (store_has_pair(final(store)@, k2, v2) <==> store_has_pair(
                    old(store)@,
                    k2,
                    v2,
                ))) && final(accounts).deep_view() == remove_id_spec(
                old(accounts).deep_view(),
                id@,
            ),
            Err(e) => e == StoreError::NotFound && !store_has_key(old(store)@, id@)
                && final(store)@ == old(store)@ && final(accounts)@ == old(accounts)@,
        }),
{
    match store.delete(id) {
        Err(e) => {
            return Err(e);
        },
        Ok(()) => {},
    }
    let owned_id: String = id.to_owned();
    let ghost orig: Seq<AccountView> = accounts.deep_view();
    let mut kept: Vec<Account> = Vec::new();
    let mut i: usize = 0;
    while i < accounts.len()
        invariant
            i <= accounts.len(),
            owned_id@ == id@,
            store.wf(),
            store_has_key(old(store)@, id@),
            !store_has_key(store@, id@),
            forall|k2: Seq<char>| k2 != id@ ==> (store_has_key(store@, k2) <==> store_has_key(
                old(store)@,
                k2,
            )),
            forall|k2: Seq<char>, v2: Seq<char>| k2 != id@ ==> (store_has_pair(store@, k2, v2)
                <==> store_has_pair(old(store)@, k2, v2)),
            accounts.deep_view() == orig,
            orig == old(accounts).deep_view(),
            kept.deep_view() == remove_id_spec(orig.subrange(0, i as int), id@),
        decreases accounts.len() - i,
    {
        let ghost prefix = orig.subrange(0, i as int);
        let keep_it = !(accounts[i].id == owned_id);
        if keep_it {
            let secret_copy: Option<String> = match &accounts[i].secret {
                Some(s) => Some(s.clone()),
                None => None,
            };
            kept.push(
                Account { id: accounts[i].id.clone(), name: accounts[i].name.clone(), secret: secret_copy },
            );
        }
        proof {
            let prefix2 = orig.subrange(0, i as int + 1);
            assert(prefix2.drop_last() =~= prefix);
            assert(prefix2.last() == orig[i as int]);
            if keep_it {
                assert(kept.deep_view().last() == orig[i as int]);
                assert(kept.deep_view() =~= remove_id_spec(prefix, id@).push(orig[i as int]));
            }
            assert(kept.deep_view() == remove_id_spec(prefix2, id@));
        }
        i += 1;
    }
    proof {
        assert(orig.subrange(0, orig.len() as int) =~= orig);
    }
    *accounts = kept;
    Ok(())
}

/// Forwards a raw-secret lookup to the store: `NotFound` exactly when no
/// secret is stored under `id`.
pub fn get_account_secret(store: &SecretKeyStore, id: &str) -> (r: Result<String, StoreError>)
    requires
        store.wf(),
    ensures
        (match r {
            Ok(v) => store_has_pair(store@, id@, v@),
            Err(e) => e == StoreError::NotFound && !store_has_key(store@, id@),
        }),
{
    store.get(id)
}

/// Imports every account of a QR payload: each parsed record gets a
/// fresh id, its raw secret stored, and its metadata appended, in order.
/// A parse failure imports nothing; the adds themselves cannot fail.
pub fn import_from_qr_code(
    accounts: &mut Vec<Account>,
    store: &mut SecretKeyStore,
    code: &str,
) -> (r: Result<(), ParseError>)
    requires
        old(store).wf(),
    ensures
        final(store).wf(),
        (match r {
            Ok(()) => qr_parse_spec(code@) is Ok && final(accounts)@.len() == old(accounts)@.len()
                + qr_parse_spec(code@).unwrap().len() && (forall|j: int|
                0 <= j < old(accounts)@.len() ==> (#[trigger] final(accounts).deep_view()[j])
                    == old(accounts).deep_view()[j]) && (forall|k: int|
                0 <= k < qr_parse_spec(code@).unwrap().len() ==> (#[trigger] final(
                    accounts).deep_view()[old(accounts)@.len() + k]).name == qr_parse_spec(
                    code@,
                ).unwrap()[k].0 && final(accounts).deep_view()[old(accounts)@.len() + k].secret
                    is None),
            Err(e) => qr_parse_spec(code@) == Err::<Seq<(Seq<char>, Seq<char>)>, ParseError>(e)
                && final(accounts)@ == old(accounts)@ && final(store)@ == old(store)@,
        }),
{
    let parsed = match parsing_qr_string_to_accounts(code) {
        Ok(v) => v,
        Err(e) => {
            return Err(e);
        },
    };
    let ghost recs = qr_parse_spec(code@).unwrap();
    let ghost base = old(accounts).deep_view();
    let mut i: usize = 0;
    while i < parsed.len()
        invariant
            store.wf(),
            qr_parse_spec(code@) is Ok,
            recs == qr_parse_spec(code@).unwrap(),
            base == old(accounts).deep_view(),
            parsed.deep_view().len() == recs.len(),
            forall|j: int|
                0 <= j < recs.len() ==> (#[trigger] parsed.deep_view()[j]).name == recs[j].0
                    && parsed.deep_view()[j].secret == Some(recs[j].1),
            i <= recs.len(),
            accounts.deep_view().len() == base.len() + i,
            forall|j: int| 0 <= j < base.len() ==> (#[trigger] accounts.deep_view()[j]) == base[j],
            forall|k: int|
                0 <= k < i ==> (#[trigger] accounts.deep_view()[base.len() + k]).name == recs[k].0
                    && accounts.deep_view()[base.len() + k].secret is None,
        decreases parsed@.len() - i,
    {
        let ghost before = accounts.deep_view();
        let name = parsed[i].name.clone();
        let secret_opt: Option<String> = match &parsed[i].secret {
            Some(secret) => Some(secret.clone()),
            None => None,
        };
        match secret_opt {
            Some(secret_b32) => {
                add_account(accounts, store, name, secret_b32);
            },
            None => {
                proof {
                    assert(parsed.deep_view()[i as int].secret is None);
                    assert(false);
                }
            },
        }
        i += 1;
    }
    Ok(())
}

/// The display record owed for one account: its raw secret is padded,
/// Base32-decoded, and turned into the live code and the shared expiry.
pub open spec fn dto_spec(account: AccountView, secret: Seq<char>, now: u64) -> Result<
    AccountDtoView,
    TotpError,
> {
    match b32_decoded(normalized_secret(secret)) {
        None => Err(TotpError::InvalidSecret),
        Some(bytes) => {
            if bytes.len() < 16 {
                Err(TotpError::SecretTooSmall)
            } else {
                Ok(
                    AccountDtoView {
                        id: account.id,
                        name: account.name,
                        code: totp_sha1_code(bytes, 6, 30, now),
                        expires_at: expiry_spec(now) as u64,
                    },
                )
            }
        },
    }
}

/// Lists the live code of every account, all sharing the `now` snapshot
/// and thus the same expiry. `secrets` holds each account's raw secret,
/// in the same order. Fails on the first bad secret, with no partial
/// result.
pub fn accounts_map_to_dto(accounts: &Vec<Account>, secrets: &Vec<String>, now: u64) -> (r: Result<
    Vec<AccountDto>,
    TotpError,
>)
    requires
        accounts@.len() == secrets@.len(),
        now <= u64::MAX - 30,
    ensures
        (match r {
            Ok(dtos) => dtos@.len() == accounts@.len() && (forall|j: int|
                0 <= j < accounts@.len() ==> #[trigger] dto_spec(accounts@[j]@, secrets@[j]@, now)
                    is Ok) && (forall|j: int|
                0 <= j < accounts@.len() ==> (#[trigger] dtos@[j])@ == dto_spec(
                    accounts@[j]@,
                    secrets@[j]@,
                    now,
                ).unwrap()),
            Err(e) => exists|j: int|
                0 <= j < accounts@.len() && #[trigger] dto_spec(accounts@[j]@, secrets@[j]@, now)
                    == Err::<AccountDtoView, TotpError>(e) && (forall|m: int|
                    0 <= m < j ==> dto_spec(accounts@[m]@, secrets@[m]@, now) is Ok),
        }),
{
    let mut results: Vec<AccountDto> = Vec::new();
    let expires_at = expiry_for(now);
    let mut i: usize = 0;
    while i < accounts.len()
        invariant
            accounts@.len() == secrets@.len(),
            now <= u64::MAX - 30,
            i <= accounts@.len(),
            expires_at == expiry_spec(now),
            results@.len() == i,
            forall|j: int| 0 <= j < i ==> #[trigger] dto_spec(accounts@[j]@, secrets@[j]@, now)
                is Ok,
            forall|j: int| 0 <= j < i ==> (#[trigger] results@[j])@ == dto_spec(
                accounts@[j]@,
                secrets@[j]@,
                now,
            ).unwrap(),
        decreases accounts@.len() - i,
    {
        let ghost ii = i as int;
        let normalized = accounts_get_valid_secret(secrets[i].clone());
        let bytes = match b32_decode(normalized.as_str()) {
            Some(b) => b,
            None => {
                proof {
                    assert(dto_spec(accounts@[ii]@, secrets@[ii]@, now) == Err::<
                        AccountDtoView,
                        TotpError,
                    >(TotpError::InvalidSecret));
                }
                return Err(TotpError::InvalidSecret);
            },
        };
        let code = match generate_code(&bytes, now) {
            Ok(c) => c,
            Err(e) => {
                proof {
                    assert(dto_spec(accounts@[ii]@, secrets@[ii]@, now) == Err::<
                        AccountDtoView,
                        TotpError,
                    >(e));
                }
                return Err(e);
            },
        };
        results.push(
            AccountDto {
                id: accounts[i].id.clone(),
                name: accounts[i].name.clone(),
                code,
                expires_at,
            },
        );
        proof {
            assert(expiry_spec(now) == expires_at as int);
            assert(dto_spec(accounts@[ii]@, secrets@[ii]@, now) is Ok);
            assert(results@[ii]@ == dto_spec(accounts@[ii]@, secrets@[ii]@, now).unwrap());
        }
        i += 1;
    }
    Ok(results)
}

} // verus!
