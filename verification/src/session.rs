//! The session cookie, which names the user who is logged in.
use vstd::prelude::*;

use crate::numbers;
use crate::text;
use crate::text::CharClass;
use crate::urlcode;

verus! {

/// What the session cookie begins with.
pub open spec fn cookie_prefix() -> Seq<char> {
    "mcpanel_user="@
}

/// The value of the session cookie, where this part of a cookie header is one that is not
/// empty.
pub open spec fn session_value(part: Seq<char>) -> Option<Seq<char>> {
    let t = text::trimmed(part);
    if text::begins(t, cookie_prefix()) && t.len() > cookie_prefix().len() {
        Some(t.skip(cookie_prefix().len() as int))
    } else {
        None
    }
}

/// The value of the first session cookie among the parts.
pub open spec fn first_session(parts: Seq<Seq<char>>) -> Option<Seq<char>>
    decreases parts.len(),
{
    if parts.len() == 0 {
        None
    } else {
        match session_value(parts[0]) {
            Some(value) => Some(value),
            None => first_session(parts.drop_first()),
        }
    }
}

/// The user whom a cookie header names.
pub open spec fn user_in(cookie: Seq<char>) -> Option<Seq<char>> {
    match first_session(text::split_at_class(cookie, CharClass::Is(';'))) {
        Some(value) => urlcode::decoded(value),
        None => None,
    }
}

/// The user whom the cookie header names, where there is one.
pub fn cookie_user(header: Option<&str>) -> (r: Option<String>)
    ensures
        text::opt_view(r) == (match header {
            Some(cookie) => user_in(cookie@),
            None => None,
        }),
{
    let cookie = match header {
        Some(cookie) => cookie,
        None => {
            return None;
        },
    };
    let parts = text::split(cookie, CharClass::Is(';'));
    let ghost all = text::views(parts@);
    let mut i: usize = 0;
    proof {
        assert(all.skip(0) =~= all);
    }
    while i < parts.len()
        invariant
            i <= parts.len(),
            header.is_some() && header.unwrap()@ == cookie@,
            all == text::views(parts@),
            all == text::split_at_class(cookie@, CharClass::Is(';')),
            first_session(all) == first_session(all.skip(i as int)),
        decreases parts.len() - i,
    {
        proof {
            assert(all.skip(i as int)[0] == parts@[i as int]@);
            assert(all.skip(i as int).drop_first() =~= all.skip(i + 1));
        }
        let part = text::trim(parts[i].as_str());
        match text::strip_prefix(part.as_str(), "mcpanel_user=") {
            Some(value) => {
                if !value.as_str().is_empty() {
                    return urlcode::decode(value.as_str());
                }
            },
            None => {},
        }
        i += 1;
    }
    None
}

/// The session cookie of a user, as a browser sends it back.
pub open spec fn session_pair(username: Seq<char>) -> Seq<char> {
    cookie_prefix() + urlcode::encoded(username)
}

/// What a browser is told to keep for a week, out of the reach of scripts and of other sites.
pub open spec fn login_cookie(username: Seq<char>) -> Seq<char> {
    session_pair(username) + "; Path=/; Max-Age=604800; HttpOnly; SameSite=Strict"@
}

/// What a browser is told to keep when a user logs in.
pub fn session_cookie(username: &str) -> (r: String)
    ensures
        r@ == login_cookie(username@),
{
    text::cat3(
        "mcpanel_user=",
        urlcode::encode(username).as_str(),
        "; Path=/; Max-Age=604800; HttpOnly; SameSite=Strict",
    )
}

/// What a browser is told when a user logs out: to keep nothing.
pub open spec fn logout_cookie() -> Seq<char> {
    "mcpanel_user=; Path=/; Max-Age=0; HttpOnly; SameSite=Strict"@
}

/// What a browser is told when a user logs out.
pub fn cleared_cookie() -> (r: String)
    ensures
        r@ == logout_cookie(),
{
    "mcpanel_user=; Path=/; Max-Age=0; HttpOnly; SameSite=Strict".to_owned()
}

// ── Laws ──────────────────────────────────────────────────────────────────

proof fn lemma_pair(username: Seq<char>, lead: Seq<char>)
    requires
        username.len() > 0,
        lead == Seq::<char>::empty() || lead == seq![' '],
    ensures
        session_value(lead + session_pair(username)) == Some(urlcode::encoded(username)),
        text::split_at_class(lead + session_pair(username), CharClass::Is(';')) == seq![
            lead + session_pair(username),
        ],
{
    reveal_strlit("mcpanel_user=");
    urlcode::law_encoded_chars(username);
    let enc = urlcode::encoded(username);
    let pair = session_pair(username);
    let blanks = lead.len() as int;
    let part = lead + pair;
    let class = CharClass::Is(';');
    let n = part.len() as int;
    let p = cookie_prefix();
    assert forall|i: int| 0 <= i < enc.len() implies !text::is_white(enc[i]) && enc[i] != ';' by {
        let c = #[trigger] enc[i];
        assert(c < '\u{80}' && (urlcode::is_plain(c as u8) || c == '%'));
    }
    assert(part[blanks] == 'm');
    assert(part[n - 1] == enc[enc.len() - 1]);
    text::lemma_trim_around(part, CharClass::White, blanks, n);
    assert(part.subrange(blanks, n) =~= pair);
    assert(pair.subrange(0, p.len() as int) =~= p);
    assert(pair.skip(p.len() as int) =~= enc);
    assert forall|i: int| 0 <= i < part.len() implies !class.has(#[trigger] part[i]) by {
        let k = i - blanks - p.len();
        if k >= 0 {
            assert(part[i] == enc[k]);
        }
    }
    text::lemma_split_one(part, class);
}

proof fn lemma_first_session_behind(front: Seq<Seq<char>>, rest: Seq<Seq<char>>)
    requires
        first_session(front).is_none(),
    ensures
        first_session(front + rest) == first_session(rest),
    decreases front.len(),
{
    if front.len() == 0 {
        assert(front + rest =~= rest);
    } else {
        lemma_first_session_behind(front.drop_first(), rest);
        assert((front + rest).drop_first() =~= front.drop_first() + rest);
        assert((front + rest)[0] == front[0]);
    }
}

/// Who logs in is who the browser's cookie then names, whatever the name, and whatever other
/// cookies the browser sends before it and after it.
pub proof fn law_session_read_back(username: Seq<char>, before: Seq<char>, after: Seq<char>)
    requires
        username.len() > 0,
        first_session(text::split_at_class(before, CharClass::Is(';'))).is_none(),
    ensures
        user_in(session_pair(username)) == Some(username),
        user_in(before + seq![';', ' '] + session_pair(username)) == Some(username),
        user_in(session_pair(username) + seq![';'] + after) == Some(username),
        user_in(before + seq![';', ' '] + session_pair(username) + seq![';'] + after) == Some(
            username,
        ),
{
    let class = CharClass::Is(';');
    let pair = session_pair(username);
    let spaced = seq![' '] + pair;
    urlcode::law_decode_encoded(username);
    lemma_pair(username, Seq::empty());
    lemma_pair(username, seq![' ']);
    assert(Seq::<char>::empty() + pair =~= pair);
    let front = text::split_at_class(before, class);
    let back = text::split_at_class(after, class);
    // The cookie alone.
    assert(seq![pair][0] == pair);
    // With others before it.
    assert(before + seq![';', ' '] + pair =~= before.push(';') + spaced);
    text::lemma_split_around(before, ';', spaced, class);
    lemma_first_session_behind(front, seq![spaced]);
    assert(seq![spaced][0] == spaced);
    // With others after it.
    assert(pair + seq![';'] + after =~= pair.push(';') + after);
    text::lemma_split_around(pair, ';', after, class);
    assert((seq![pair] + back)[0] == pair);
    // With others on both sides.
    let tail = spaced.push(';') + after;
    assert(before + seq![';', ' '] + pair + seq![';'] + after =~= before.push(';') + tail);
    text::lemma_split_around(before, ';', tail, class);
    text::lemma_split_around(spaced, ';', after, class);
    lemma_first_session_behind(front, seq![spaced] + back);
    assert((seq![spaced] + back)[0] == spaced);
}

/// After logging out the cookie names nobody.
pub proof fn law_logout_names_nobody()
    ensures
        user_in(cookie_prefix()).is_none(),
        text::begins(logout_cookie(), cookie_prefix() + ";"@),
{
    reveal_strlit("mcpanel_user=");
    reveal_strlit(";");
    reveal_strlit("mcpanel_user=; Path=/; Max-Age=0; HttpOnly; SameSite=Strict");
    let p = cookie_prefix();
    let class = CharClass::Is(';');
    assert forall|i: int| 0 <= i < p.len() implies !class.has(#[trigger] p[i]) by {}
    text::lemma_split_one(p, class);
    text::lemma_trim_around(p, CharClass::White, 0, p.len() as int);
    assert(p.subrange(0, p.len() as int) =~= p);
    assert(seq![p][0] == p);
    assert(first_session(seq![p].drop_first()).is_none());
    assert(logout_cookie().subrange(0, 14) =~= p + ";"@);
}

/// Whoever logs in is named by the cookie that their browser is told to keep: for a week, for the
/// whole panel, out of the reach of scripts and of other sites.
pub proof fn law_login_is_kept(username: Seq<char>)
    requires
        username.len() > 0,
    ensures
        user_in(login_cookie(username)) == Some(username),
        text::begins(login_cookie(username), "mcpanel_user="@),
        text::has_text(login_cookie(username), "; Path=/;"@),
        text::has_text(login_cookie(username), "; HttpOnly;"@),
        text::ends(login_cookie(username), "; SameSite=Strict"@),
        exists|age: Seq<char>| #[trigger]
            lasts(login_cookie(username), age) && numbers::parsed(age, u64::MAX as nat) == Some(
                (7 * 24 * 60 * 60) as nat,
            ),
{
    let cookie = login_cookie(username);
    let pair = session_pair(username);
    let flags = "; Path=/; Max-Age=604800; HttpOnly; SameSite=Strict"@;
    let n = pair.len() as int;
    let m = flags.len() as int;
    reveal_strlit("mcpanel_user=");
    reveal_strlit("; Path=/; Max-Age=604800; HttpOnly; SameSite=Strict");
    reveal_strlit("; Path=/;");
    reveal_strlit("; HttpOnly;");
    reveal_strlit("; SameSite=Strict");
    reveal_strlit("; Max-Age=");
    reveal_strlit(";");
    reveal_strlit("604800");
    let none = Seq::<char>::empty();
    let back = flags.skip(1);
    assert(text::split_at_class(none, CharClass::Is(';')) =~= seq![none]) by {
        text::lemma_split_one(none, CharClass::Is(';'));
    }
    assert(session_value(none).is_none()) by {
        text::lemma_trim_all(none, CharClass::White);
    }
    assert(seq![none][0] == none);
    assert(seq![none].drop_first() =~= Seq::<Seq<char>>::empty());
    assert(first_session(seq![none].drop_first()).is_none());
    law_session_read_back(username, none, back);
    assert(cookie =~= pair + seq![';'] + back);
    assert(cookie.subrange(0, 13) =~= "mcpanel_user="@);
    assert(cookie.subrange(n, n + 9) =~= "; Path=/;"@);
    assert(text::occurs_at(cookie, "; Path=/;"@, n));
    assert(cookie.subrange(n + 24, n + 35) =~= "; HttpOnly;"@);
    assert(text::occurs_at(cookie, "; HttpOnly;"@, n + 24));
    assert(cookie.subrange(n + m - 17, n + m) =~= "; SameSite=Strict"@);
    let age = "604800"@;
    assert(cookie.subrange(n + 8, n + 25) =~= "; Max-Age="@ + age + ";"@);
    assert(text::occurs_at(cookie, "; Max-Age="@ + age + ";"@, n + 8));
    assert(lasts(cookie, age));
    lemma_week();
}

/// Whether a browser is told to keep the cookie for so many seconds.
pub open spec fn lasts(cookie: Seq<char>, age: Seq<char>) -> bool {
    text::has_text(cookie, "; Max-Age="@ + age + ";"@)
}

proof fn lemma_week()
    ensures
        numbers::parsed("604800"@, u64::MAX as nat) == Some(604800nat),
{
    reveal_strlit("604800");
    numbers::law_decimal_reads_back(604800, u64::MAX as nat);
    let none = Seq::<char>::empty();
    assert(numbers::digits(6) =~= seq!['6']);
    assert(numbers::digits(60) =~= seq!['6', '0']);
    assert(numbers::digits(604) =~= seq!['6', '0', '4']);
    assert(numbers::digits(6048) =~= seq!['6', '0', '4', '8']);
    assert(numbers::digits(60480) =~= seq!['6', '0', '4', '8', '0']);
    assert(numbers::digits(604800) =~= seq!['6', '0', '4', '8', '0', '0']);
    assert("604800"@ =~= seq!['6', '0', '4', '8', '0', '0']);
}

/// A part of a cookie header counts where it gives the panel's own cookie a value, and what
/// stands around it is white space. A header without any such part names nobody.
pub proof fn law_other_cookies_are_ignored(part: Seq<char>)
    requires
        !part.contains(';'),
        !text::begins(text::trimmed(part), "mcpanel_user="@) || text::trimmed(part)
            == "mcpanel_user="@,
    ensures
        user_in(part).is_none(),
{
    let class = CharClass::Is(';');
    assert forall|i: int| 0 <= i < part.len() implies !class.has(#[trigger] part[i]) by {
        assert(part.contains(part[i]));
    }
    text::lemma_split_one(part, class);
    assert(seq![part][0] == part);
    assert(seq![part].drop_first() =~= Seq::<Seq<char>>::empty());
    assert(first_session(seq![part].drop_first()).is_none());
}

/// The cookie of whoever logs out names nobody, and the browser is told to drop it at once.
pub proof fn law_logout_is_kept()
    ensures
        text::begins(logout_cookie(), "mcpanel_user=;"@),
        text::has_text(logout_cookie(), "; Path=/;"@),
        lasts(logout_cookie(), "0"@),
        text::has_text(logout_cookie(), "; HttpOnly;"@),
        text::ends(logout_cookie(), "; SameSite=Strict"@),
{
    let cookie = logout_cookie();
    let n = cookie.len() as int;
    reveal_strlit("mcpanel_user=; Path=/; Max-Age=0; HttpOnly; SameSite=Strict");
    reveal_strlit("mcpanel_user=;");
    reveal_strlit("; Path=/;");
    reveal_strlit("; HttpOnly;");
    reveal_strlit("; SameSite=Strict");
    reveal_strlit("; Max-Age=");
    reveal_strlit(";");
    reveal_strlit("0");
    assert(cookie.subrange(0, 14) =~= "mcpanel_user=;"@);
    assert(cookie.subrange(13, 22) =~= "; Path=/;"@);
    assert(text::occurs_at(cookie, "; Path=/;"@, 13));
    assert(cookie.subrange(21, 33) =~= "; Max-Age="@ + "0"@ + ";"@);
    assert(text::occurs_at(cookie, "; Max-Age="@ + "0"@ + ";"@, 21));
    assert(cookie.subrange(32, 43) =~= "; HttpOnly;"@);
    assert(text::occurs_at(cookie, "; HttpOnly;"@, 32));
    assert(cookie.subrange(n - 17, n) =~= "; SameSite=Strict"@);
}

} // verus!
