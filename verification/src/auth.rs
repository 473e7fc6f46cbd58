//! Credentials by account.

use crate::table::Table;
use crate::text::{
    ascending, cat2, cat3, lemma_precedes_total, lemma_precedes_transitive, opt_clone, opt_view, precedes, sort,
    starts, starts_with, str_eq, strip_prefix, views,
};
use vstd::prelude::*;

verus! {

#[derive(Debug, PartialEq, Eq)]
pub enum CredentialKind {
    Api { key: String, region: Option<String> },
    Oauth { access: String, refresh: String, expires: u64, account_id: Option<String> },
}

pub enum CredentialView {
    Api { key: Seq<char>, region: Option<Seq<char>> },
    Oauth { access: Seq<char>, refresh: Seq<char>, expires: u64, account_id: Option<Seq<char>> },
}

impl View for CredentialKind {
    type V = CredentialView;

    open spec fn view(&self) -> CredentialView {
        match *self {
            CredentialKind::Api { key, region } => CredentialView::Api {
                key: key@,
                region: opt_view(region),
            },
            CredentialKind::Oauth { access, refresh, expires, account_id } => CredentialView::Oauth {
                access: access@,
                refresh: refresh@,
                expires,
                account_id: opt_view(account_id),
            },
        }
    }
}

impl CredentialView {
    /// What goes into the authorization header.
    pub open spec fn token(self) -> Seq<char> {
        match self {
            CredentialView::Api { key, .. } => key,
            CredentialView::Oauth { access, .. } => access,
        }
    }
}

impl CredentialKind {
    /// The region of an API credential; a subscription has none.
    pub fn region(&self) -> (r: Option<&String>)
        ensures
            match r {
                Some(region) => self@ is Api && self@->region == Some(region@),
                None => self@ is Oauth || self@->region is None,
            },
    {
        match self {
            CredentialKind::Api { region, .. } => region.as_ref(),
            CredentialKind::Oauth { .. } => None,
        }
    }

    pub fn bearer(&self) -> (r: &str)
        ensures
            r@ == self@.token(),
    {
        match self {
            CredentialKind::Api { key, .. } => key.as_str(),
            CredentialKind::Oauth { access, .. } => access.as_str(),
        }
    }

    pub fn copy(&self) -> (r: CredentialKind)
        ensures
            r@ == self@,
    {
        match self {
            CredentialKind::Api { key, region } => CredentialKind::Api {
                key: key.clone(),
                region: opt_clone(region),
            },
            CredentialKind::Oauth { access, refresh, expires, account_id } => CredentialKind::Oauth {
                access: access.clone(),
                refresh: refresh.clone(),
                expires: *expires,
                account_id: opt_clone(account_id),
            },
        }
    }
}

/// The credentials that are stored, by account key.
pub struct AuthStore {
    pub accounts: Table<CredentialKind>,
}

impl View for AuthStore {
    type V = Map<Seq<char>, CredentialView>;

    open spec fn view(&self) -> Map<Seq<char>, CredentialView> {
        self.accounts@.map_values(|c: CredentialKind| c@)
    }
}

/// The key of an account: the provider alone stands for its default account.
pub open spec fn account_key(provider: Seq<char>, account: Seq<char>) -> Seq<char> {
    if account == "default"@ {
        provider
    } else {
        provider + ":"@ + account
    }
}

pub fn account_id(provider: &str, account: &str) -> (r: String)
    ensures
        r@ == account_key(provider@, account@),
{
    if str_eq(account, "default") {
        provider.to_owned()
    } else {
        cat3(provider, ":", account)
    }
}

/// A key of one of the provider's accounts.
pub open spec fn is_account_of(key: Seq<char>, provider: Seq<char>) -> bool {
    key == provider || starts(key, provider + ":"@)
}

/// The account that a key names.
pub open spec fn account_name(key: Seq<char>, provider: Seq<char>) -> Seq<char> {
    match crate::text::behind(key, provider + ":"@) {
        Some(name) => name,
        None => "default"@,
    }
}

/// The key of an account names that account, and no other account of the
/// provider has it.
pub proof fn law_accounts_are_found_by_their_keys(provider: Seq<char>, a: Seq<char>, b: Seq<char>)
    ensures
        account_name(account_key(provider, a), provider) == a,
        is_account_of(account_key(provider, a), provider),
        account_key(provider, a) == account_key(provider, b) ==> a == b,
{
    reveal_strlit(":");
    lemma_name_of_key(provider, a);
    lemma_name_of_key(provider, b);
}

proof fn lemma_name_of_key(provider: Seq<char>, account: Seq<char>)
    ensures
        account_name(account_key(provider, account), provider) == account,
        is_account_of(account_key(provider, account), provider),
{
    reveal_strlit(":");
    let prefix = provider + ":"@;
    assert(prefix.len() == provider.len() + 1);
    if account != "default"@ {
        let key = prefix + account;
        assert(key.subrange(0, prefix.len() as int) =~= prefix);
        assert(key.subrange(prefix.len() as int, key.len() as int) =~= account);
    }
}

pub fn name_of_account(key: &str, provider: &str) -> (r: String)
    ensures
        r@ == account_name(key@, provider@),
{
    let prefix = cat2(provider, ":");
    match strip_prefix(key, prefix.as_str()) {
        Some(name) => name,
        None => "default".to_owned(),
    }
}

impl AuthStore {
    pub fn new() -> (r: AuthStore)
        ensures
            r@ == Map::<Seq<char>, CredentialView>::empty(),
    {
        let r = AuthStore { accounts: Table::new() };
        assert(r@ =~= Map::<Seq<char>, CredentialView>::empty());
        r
    }

    pub fn insert(&mut self, key: &str, credential: CredentialKind)
        ensures
            final(self)@ == old(self)@.insert(key@, credential@),
    {
        let ghost c = credential@;
        self.accounts.insert(key, credential);
        assert(self@ =~= old(self)@.insert(key@, c));
    }

    pub fn contains(&self, key: &str) -> (r: bool)
        ensures
            r == self@.contains_key(key@),
    {
        self.accounts.contains(key)
    }

    pub fn get(&self, key: &str) -> (r: Option<&CredentialKind>)
        ensures
            match r {
                Some(c) => self@.contains_key(key@) && c@ == self@[key@],
                None => !self@.contains_key(key@),
            },
    {
        self.accounts.get(key)
    }

    pub fn is_empty(&self) -> (r: bool)
        ensures
            r == (forall|k: Seq<char>| !self@.contains_key(k)),
    {
        let n: usize = self.accounts.len();
        proof {
            if n > 0 {
                let k = self.accounts.order()[0];
                assert(self.accounts.order().contains(k));
                assert(self.accounts@.contains_key(k));
                assert(self@.contains_key(k));
            } else {
                assert forall|k: Seq<char>| !self@.contains_key(k) by {
                    if self.accounts@.contains_key(k) {
                        assert(self.accounts.order().contains(k));
                    }
                }
            }
        }
        n == 0
    }

    /// The same credentials in a store of their own.
    pub fn copy(&self) -> (r: AuthStore)
        ensures
            r@ == self@,
    {
        let mut out = AuthStore::new();
        let n: usize = self.accounts.len();
        let ghost order = self.accounts.order();
        let mut i: usize = 0;
        while i < n
            invariant
                i <= n == order.len(),
                order == self.accounts.order(),
                forall|k: Seq<char>| #[trigger] self.accounts@.contains_key(k) <==> order.contains(k),
                forall|k: Seq<char>|
                    #[trigger] out@.contains_key(k) <==> order.take(i as int).contains(k),
                forall|k: Seq<char>|
                    #[trigger] out@.contains_key(k) ==> self@.contains_key(k) && out@[k] == self@[k],
            decreases n - i,
        {
            let (key, credential) = self.accounts.entry(i);
            let ghost before = out@;
            out.insert(key.as_str(), credential.copy());
            proof {
                let next = order.take(i + 1);
                assert(next =~= order.take(i as int).push(key@));
                assert forall|k: Seq<char>| #[trigger] out@.contains_key(k) <==> next.contains(k) by {
                    if next.contains(k) && k != key@ {
                        let j = choose|j: int| 0 <= j < next.len() && next[j] == k;
                        assert(order.take(i as int)[j] == k);
                        assert(before.contains_key(k));
                    }
                    if out@.contains_key(k) {
                        if k == key@ {
                            assert(next[i as int] == k);
                        } else {
                            assert(before.contains_key(k));
                            let j = choose|j: int|
                                0 <= j < order.take(i as int).len() && order.take(i as int)[j] == k;
                            assert(next[j] == k);
                        }
                    }
                }
            }
            i = i + 1;
        }
        assert(order.take(i as int) =~= order);
        assert(out@ =~= self@);
        out
    }
}

/// The credential of an account; the default one where none is named.
pub open spec fn credential_in(
    store: Map<Seq<char>, CredentialView>,
    provider: Seq<char>,
    account: Option<Seq<char>>,
) -> Option<CredentialView> {
    let key = account_key(
        provider,
        match account {
            Some(name) => name,
            None => "default"@,
        },
    );
    if store.contains_key(key) {
        Some(store[key])
    } else {
        None
    }
}

pub fn credential_for<'a>(store: &'a AuthStore, provider: &str, account: &Option<String>) -> (r:
    Option<&'a CredentialKind>)
    ensures
        (match r {
            Some(c) => Some(c@),
            None => None,
        }) == credential_in(store@, provider@, opt_view(*account)),
{
    let key = match account {
        Some(name) => account_id(provider, name.as_str()),
        None => account_id(provider, "default"),
    };
    store.get(key.as_str())
}

/// The account keys that belong to the provider, among `keys` in their order.
pub open spec fn account_keys(keys: Seq<Seq<char>>, provider: Seq<char>) -> Seq<Seq<char>>
    decreases keys.len(),
{
    if keys.len() == 0 {
        Seq::empty()
    } else {
        let head = account_keys(keys.drop_last(), provider);
        if is_account_of(keys.last(), provider) {
            head.push(keys.last())
        } else {
            head
        }
    }
}

/// The provider's accounts in the order of their keys: the default account
/// first, then the named ones.
pub open spec fn accounts_are(list: Seq<Seq<char>>, store: Map<Seq<char>, CredentialView>, provider: Seq<char>) -> bool {
    &&& ascending(list)
    &&& list.no_duplicates()
    &&& forall|k: Seq<char>| #[trigger]
        list.contains(k) <==> store.contains_key(k) && is_account_of(k, provider)
}

/// The provider's account keys in order.
pub open spec fn sorted_accounts(store: Map<Seq<char>, CredentialView>, provider: Seq<char>) -> Seq<Seq<char>> {
    choose|list: Seq<Seq<char>>| accounts_are(list, store, provider)
}

proof fn lemma_ascending_unique(a: Seq<Seq<char>>, b: Seq<Seq<char>>)
    requires
        ascending(a),
        ascending(b),
        a.no_duplicates(),
        b.no_duplicates(),
        forall|k: Seq<char>| #[trigger] a.contains(k) <==> b.contains(k),
    ensures
        a == b,
    decreases a.len(),
{
    if a.len() == 0 {
        if b.len() > 0 {
            assert(b.contains(b[0]));
            assert(a.contains(b[0]));
        }
        assert(a =~= b);
    } else {
        assert(a.contains(a[0]));
        assert(b.contains(a[0]));
        assert(b.contains(b[0]));
        assert(a.contains(b[0]));
        let j = choose|j: int| 0 <= j < b.len() && b[j] == a[0];
        let i = choose|i: int| 0 <= i < a.len() && a[i] == b[0];
        lemma_precedes_total(a[0], b[0]);
        if j > 0 {
            assert(!precedes(b[j], b[0]));
        }
        if i > 0 {
            assert(!precedes(a[i], a[0]));
        }
        assert(a[0] == b[0]);
        let x = a.subrange(1, a.len() as int);
        let y = b.subrange(1, b.len() as int);
        assert forall|k: Seq<char>| #[trigger] x.contains(k) <==> y.contains(k) by {
            if x.contains(k) {
                let m = choose|m: int| 0 <= m < x.len() && x[m] == k;
                assert(a[m + 1] == k);
                assert(a.contains(k));
                let n = choose|n: int| 0 <= n < b.len() && b[n] == k;
                assert(n != 0);
                assert(y[n - 1] == k);
            }
            if y.contains(k) {
                let m = choose|m: int| 0 <= m < y.len() && y[m] == k;
                assert(b[m + 1] == k);
                assert(b.contains(k));
                assert(a.contains(k));
                let n = choose|n: int| 0 <= n < a.len() && a[n] == k;
                assert(n != 0);
                assert(x[n - 1] == k);
            }
        }
        lemma_ascending_unique(x, y);
        assert(a =~= seq![a[0]] + x);
        assert(b =~= seq![b[0]] + y);
    }
}

/// There is only one such list.
pub proof fn lemma_accounts_unique(a: Seq<Seq<char>>, store: Map<Seq<char>, CredentialView>, provider: Seq<char>)
    requires
        accounts_are(a, store, provider),
    ensures
        a == sorted_accounts(store, provider),
{
    let b = sorted_accounts(store, provider);
    assert(accounts_are(b, store, provider));
    lemma_ascending_unique(a, b);
}

/// The list with one text more, at its place.
proof fn lemma_inserted(list: Seq<Seq<char>>, x: Seq<char>) -> (r: Seq<Seq<char>>)
    requires
        ascending(list),
        list.no_duplicates(),
        !list.contains(x),
    ensures
        ascending(r),
        r.no_duplicates(),
        forall|k: Seq<char>| #[trigger] r.contains(k) <==> list.contains(k) || k == x,
    decreases list.len(),
{
    if list.len() == 0 || !precedes(x, list.last()) {
        let r = list.push(x);
        assert forall|i: int, j: int| 0 <= i < j < r.len() implies !precedes(
            #[trigger] r[j],
            #[trigger] r[i],
        ) by {
            if j == list.len() && i < list.len() - 1 {
                let last = list.last();
                lemma_precedes_total(x, last);
                lemma_precedes_total(x, list[i]);
                lemma_precedes_total(last, list[i]);
                assert(!precedes(list[list.len() - 1], list[i]));
                assert(list.contains(last) && list.contains(list[i]));
                if precedes(x, list[i]) {
                    if precedes(list[i], last) {
                        lemma_precedes_transitive(x, list[i], last);
                    }
                }
            }
        }
        assert forall|k: Seq<char>| #[trigger] r.contains(k) <==> list.contains(k) || k == x by {
            if list.contains(k) {
                let i = choose|i: int| 0 <= i < list.len() && list[i] == k;
                assert(r[i] == k);
            }
            assert(r[list.len() as int] == x);
        }
        r
    } else {
        let init = list.drop_last();
        let last = list.last();
        let head = lemma_inserted(init, x);
        let r = head.push(last);
        assert(!head.contains(last)) by {
            if init.contains(last) {
                let i = choose|i: int| 0 <= i < init.len() && init[i] == last;
                assert(list[i] == list[list.len() - 1]);
            }
            assert(list.contains(last));
        }
        assert forall|i: int, j: int| 0 <= i < j < r.len() implies !precedes(
            #[trigger] r[j],
            #[trigger] r[i],
        ) by {
            if j == head.len() {
                assert(head.contains(head[i]));
                lemma_precedes_total(x, last);
                if init.contains(head[i]) {
                    let m = choose|m: int| 0 <= m < init.len() && init[m] == head[i];
                    assert(list[m] == head[i]);
                    assert(!precedes(list[list.len() - 1], list[m]));
                }
            }
        }
        assert forall|k: Seq<char>| #[trigger] r.contains(k) <==> list.contains(k) || k == x by {
            if r.contains(k) {
                let i = choose|i: int| 0 <= i < r.len() && r[i] == k;
                if i < head.len() {
                    assert(head.contains(k));
                    if init.contains(k) {
                        let m = choose|m: int| 0 <= m < init.len() && init[m] == k;
                        assert(list[m] == k);
                    }
                } else {
                    assert(list[list.len() - 1] == k);
                }
            }
            if list.contains(k) || k == x {
                if k == last {
                    assert(r[head.len() as int] == k);
                } else {
                    if list.contains(k) {
                        let m = choose|m: int| 0 <= m < list.len() && list[m] == k;
                        assert(init[m] == k);
                    }
                    assert(head.contains(k));
                    let i = choose|i: int| 0 <= i < head.len() && head[i] == k;
                    assert(r[i] == k);
                }
            }
        }
        r
    }
}

proof fn lemma_listed(keys: Set<Seq<char>>) -> (r: Seq<Seq<char>>)
    requires
        keys.finite(),
    ensures
        ascending(r),
        r.no_duplicates(),
        forall|k: Seq<char>| #[trigger] r.contains(k) <==> keys.contains(k),
    decreases keys.len(),
{
    if keys.len() == 0 {
        Seq::empty()
    } else {
        let x = keys.choose();
        let head = lemma_listed(keys.remove(x));
        lemma_inserted(head, x)
    }
}

/// The provider's accounts are exactly the stored keys of the provider, each once,
/// and in the order of the keys.
pub proof fn law_accounts_are_listed(store: Map<Seq<char>, CredentialView>, provider: Seq<char>)
    requires
        store.dom().finite(),
    ensures
        forall|i: int, j: int|
            0 <= i < j < sorted_accounts(store, provider).len() ==> precedes(
                #[trigger] sorted_accounts(store, provider)[i],
                #[trigger] sorted_accounts(store, provider)[j],
            ),
        forall|k: Seq<char>|
            #[trigger] sorted_accounts(store, provider).contains(k) <==> store.contains_key(k) && (k
                == provider || starts(k, provider + ":"@)),
{
    let keys = store.dom().filter(|k: Seq<char>| is_account_of(k, provider));
    let list = lemma_listed(keys);
    assert forall|k: Seq<char>| #[trigger] list.contains(k) <==> store.contains_key(k)
        && is_account_of(k, provider) by {
        assert(keys.contains(k) <==> store.contains_key(k) && is_account_of(k, provider));
    }
    assert(accounts_are(list, store, provider));
    lemma_accounts_unique(list, store, provider);
    assert forall|i: int, j: int| 0 <= i < j < list.len() implies precedes(
        #[trigger] list[i],
        #[trigger] list[j],
    ) by {
        lemma_precedes_total(list[i], list[j]);
        assert(!precedes(list[j], list[i]));
    }
}

pub fn accounts_of(store: &AuthStore, provider: &str) -> (r: Vec<String>)
    ensures
        views(r@) == sorted_accounts(store@, provider@),
        accounts_are(views(r@), store@, provider@),
{
    let prefix = cat2(provider, ":");
    let n: usize = store.accounts.len();
    let ghost order = store.accounts.order();
    let mut found: Vec<String> = Vec::new();
    let mut i: usize = 0;
    assert(views(found@) =~= account_keys(order.take(0), provider@));
    while i < n
        invariant
            i <= n == order.len(),
            order == store.accounts.order(),
            prefix@ == provider@ + ":"@,
            views(found@) == account_keys(order.take(i as int), provider@),
        decreases n - i,
    {
        let (key, _) = store.accounts.entry(i);
        assert(order.take(i + 1).drop_last() =~= order.take(i as int));
        if str_eq(key.as_str(), provider) || starts_with(key.as_str(), prefix.as_str()) {
            let ghost before = found@;
            found.push(key.clone());
            assert(views(found@) =~= views(before).push(key@));
        }
        i = i + 1;
    }
    assert(order.take(i as int) =~= order);
    let ghost listed = views(found@);
    let r = sort(found);
    proof {
        lemma_account_keys(order, provider@);
        lemma_same_texts(views(r@), listed);
        assert forall|k: Seq<char>| #[trigger] views(r@).contains(k) <==> store@.contains_key(k)
            && is_account_of(k, provider@) by {
            assert(views(r@).contains(k) <==> listed.contains(k));
            assert(store.accounts@.contains_key(k) <==> order.contains(k));
        }
        lemma_accounts_unique(views(r@), store@, provider@);
    }
    r
}

proof fn lemma_account_keys(keys: Seq<Seq<char>>, provider: Seq<char>)
    requires
        keys.no_duplicates(),
    ensures
        account_keys(keys, provider).no_duplicates(),
        forall|k: Seq<char>| #[trigger]
            account_keys(keys, provider).contains(k) <==> keys.contains(k) && is_account_of(k, provider),
    decreases keys.len(),
{
    if keys.len() > 0 {
        let init = keys.drop_last();
        let last = keys.last();
        lemma_account_keys(init, provider);
        let head = account_keys(init, provider);
        let all = account_keys(keys, provider);
        assert(keys =~= init.push(last));
        assert(!init.contains(last)) by {
            if init.contains(last) {
                let j = choose|j: int| 0 <= j < init.len() && init[j] == last;
                assert(keys[j] == keys[keys.len() - 1]);
            }
        }
        assert forall|k: Seq<char>| #[trigger] all.contains(k) <==> keys.contains(k) && is_account_of(
            k,
            provider,
        ) by {
            if all.contains(k) {
                let j = choose|j: int| 0 <= j < all.len() && all[j] == k;
                if j < head.len() {
                    assert(head[j] == k);
                    assert(head.contains(k));
                    let m = choose|m: int| 0 <= m < init.len() && init[m] == k;
                    assert(keys[m] == k);
                } else {
                    assert(keys[keys.len() - 1] == k);
                }
            }
            if keys.contains(k) && is_account_of(k, provider) {
                let m = choose|m: int| 0 <= m < keys.len() && keys[m] == k;
                if m < init.len() {
                    assert(init[m] == k);
                    assert(init.contains(k));
                    assert(head.contains(k));
                    let j = choose|j: int| 0 <= j < head.len() && head[j] == k;
                    assert(all[j] == k);
                } else {
                    assert(all[all.len() - 1] == k);
                }
            }
        }
        if is_account_of(last, provider) {
            assert(!head.contains(last));
            assert forall|i: int, j: int| 0 <= i < all.len() && 0 <= j < all.len() && i != j implies all[i]
                != all[j] by {
                if i < head.len() {
                    assert(head.contains(head[i]));
                }
                if j < head.len() {
                    assert(head.contains(head[j]));
                }
            }
        }
    }
}

/// Two lists with the same texts, as often, agree on what they contain.
proof fn lemma_same_texts(a: Seq<Seq<char>>, b: Seq<Seq<char>>)
    requires
        a.to_multiset() == b.to_multiset(),
        b.no_duplicates(),
    ensures
        a.no_duplicates(),
        forall|k: Seq<char>| #[trigger] a.contains(k) <==> b.contains(k),
{
    a.to_multiset_ensures();
    b.to_multiset_ensures();
    b.lemma_multiset_has_no_duplicates();
    assert(forall|k: Seq<char>| a.to_multiset().contains(k) ==> a.to_multiset().count(k) == 1);
    a.lemma_multiset_has_no_duplicates_conv();
    assert forall|k: Seq<char>| #[trigger] a.contains(k) <==> b.contains(k) by {
        assert(a.contains(k) <==> a.to_multiset().count(k) > 0);
        assert(b.contains(k) <==> b.to_multiset().count(k) > 0);
    }
}

} // verus!
