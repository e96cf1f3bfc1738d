//! The lobby session: input validation, the create/join/leave lifecycle,
//! and the membership roster.
use vstd::prelude::*;
use vstd::string::*;
use crate::error::AppError;
use crate::text::{all_white, lemma_trimmed_empty, same_text, trim, trimmed};

verus! {

/// Unicode `Alphabetic` or `Numeric`, as `char::is_alphanumeric` decides.
pub uninterp spec fn alnum(c: char) -> bool;

/// Unicode `Alphabetic`, as `char::is_alphabetic` decides.
pub uninterp spec fn alpha(c: char) -> bool;

/// Unicode `Numeric`, as `char::is_numeric` decides.
pub uninterp spec fn numeric(c: char) -> bool;

/// Relies on `char::is_alphanumeric`, which depends on the character alone.
#[verifier::external_body]
fn is_alphanumeric(c: char) -> (r: bool)
    ensures
        r == alnum(c),
{
    c.is_alphanumeric()
}

/// Relies on `char::is_alphabetic`, which depends on the character alone.
#[verifier::external_body]
fn is_alphabetic(c: char) -> (r: bool)
    ensures
        r == alpha(c),
{
    c.is_alphabetic()
}

/// Relies on `char::is_numeric`, which depends on the character alone.
#[verifier::external_body]
fn is_numeric(c: char) -> (r: bool)
    ensures
        r == numeric(c),
{
    c.is_numeric()
}

/// Relies on `uuid::Uuid::new_v4` and its `Display`: a random identifier in
/// hyphenated form, 36 characters long.
#[verifier::external_body]
fn new_identifier() -> (r: String)
    ensures
        r@.len() == 36,
{
    uuid::Uuid::new_v4().to_string()
}

/// Relies on `chrono::Utc::now` and `DateTime::timestamp_millis`: the
/// current time in milliseconds since the Unix epoch.
#[verifier::external_body]
fn now_millis() -> (r: i64) {
    chrono::Utc::now().timestamp_millis()
}

/// What can go wrong with a lobby operation.
#[derive(Debug)]
pub enum LobbyError {
    InvalidInput(String),
    NetworkError(String),
    AlreadyInLobby,
    NotInLobby,
    PlayerNotFound(String),
}

impl LobbyError {
    /// The message the error reads as.
    pub open spec fn message(&self) -> Seq<char> {
        match self {
            LobbyError::InvalidInput(m) => "输入验证失败: "@ + m@,
            LobbyError::NetworkError(m) => "网络错误: "@ + m@,
            LobbyError::AlreadyInLobby => "已经在大厅中"@,
            LobbyError::NotInLobby => "不在大厅中"@,
            LobbyError::PlayerNotFound(id) => "玩家不存在: "@ + id@,
        }
    }

    /// The human-readable message of the error.
    pub fn to_string(&self) -> (r: String)
        ensures
            r@ == self.message(),
    {
        match self {
            LobbyError::InvalidInput(m) => {
                let mut r = String::from_str("输入验证失败: ");
                r.append(m.as_str());
                r
            },
            LobbyError::NetworkError(m) => {
                let mut r = String::from_str("网络错误: ");
                r.append(m.as_str());
                r
            },
            LobbyError::AlreadyInLobby => String::from_str("已经在大厅中"),
            LobbyError::NotInLobby => String::from_str("不在大厅中"),
            LobbyError::PlayerNotFound(id) => {
                let mut r = String::from_str("玩家不存在: ");
                r.append(id.as_str());
                r
            },
        }
    }

    /// The application-wide error this one stands for: invalid input and
    /// state errors become validation errors, network errors stay network
    /// errors.
    pub fn to_app_error(self) -> (r: AppError)
        ensures
            self is InvalidInput ==> r is ValidationError && r.detail() == self->InvalidInput_0@,
            self is NetworkError ==> r is NetworkError && r.detail() == self->NetworkError_0@,
            self is AlreadyInLobby ==> r is ValidationError && r.detail() == "已经在大厅中"@,
            self is NotInLobby ==> r is ValidationError && r.detail() == "不在大厅中"@,
            self is PlayerNotFound ==> r is ValidationError && r.detail() == "玩家不存在: "@
                + self->PlayerNotFound_0@,
    {
        match self {
            LobbyError::InvalidInput(m) => AppError::ValidationError(m),
            LobbyError::NetworkError(m) => AppError::NetworkError(m),
            LobbyError::AlreadyInLobby => AppError::ValidationError(String::from_str("已经在大厅中")),
            LobbyError::NotInLobby => AppError::ValidationError(String::from_str("不在大厅中")),
            LobbyError::PlayerNotFound(id) => {
                let mut m = String::from_str("玩家不存在: ");
                m.append(id.as_str());
                AppError::ValidationError(m)
            },
        }
    }
}

impl From<LobbyError> for AppError {
    fn from(err: LobbyError) -> (r: AppError) {
        err.to_app_error()
    }
}

impl vstd::std_specs::convert::FromSpecImpl<LobbyError> for AppError {
    open spec fn obeys_from_spec() -> bool {
        false
    }

    open spec fn from_spec(v: LobbyError) -> AppError {
        arbitrary()
    }
}

/// A lobby session: its id, name, creation time (milliseconds since the
/// Unix epoch), this node's overlay address, and the address of the peer
/// that hosts the rendezvous.
#[derive(Debug, Clone, PartialEq)]
pub struct Lobby {
    pub id: String,
    pub name: String,
    pub created_at: i64,
    pub virtual_ip: String,
    pub creator_virtual_ip: String,
}

impl Lobby {
    /// A lobby with a fresh id, created now.
    pub fn new(name: String, virtual_ip: String, creator_virtual_ip: String) -> (r: Lobby)
        ensures
            r.name@ == name@,
            r.virtual_ip@ == virtual_ip@,
            r.creator_virtual_ip@ == creator_virtual_ip@,
            r.id@.len() == 36,
    {
        Lobby {
            id: new_identifier(),
            name,
            created_at: now_millis(),
            virtual_ip,
            creator_virtual_ip,
        }
    }

    /// A copy of the lobby.
    pub fn duplicate(&self) -> (r: Lobby)
        ensures
            r == *self,
    {
        Lobby {
            id: self.id.clone(),
            name: self.name.clone(),
            created_at: self.created_at,
            virtual_ip: self.virtual_ip.clone(),
            creator_virtual_ip: self.creator_virtual_ip.clone(),
        }
    }
}

/// A lobby member: id, name, microphone and mute flags, and when it joined
/// (milliseconds since the Unix epoch).
#[derive(Debug, Clone, PartialEq)]
pub struct Player {
    pub id: String,
    pub name: String,
    pub mic_enabled: bool,
    pub is_muted: bool,
    pub joined_at: i64,
}

/// A roster record as plain values.
pub struct MemberEntry {
    pub id: Seq<char>,
    pub name: Seq<char>,
    pub mic_enabled: bool,
    pub is_muted: bool,
    pub joined_at: i64,
}

impl Player {
    /// A member with a fresh id, joined now, microphone off and not muted.
    pub fn new(name: String) -> (r: Player)
        ensures
            r.name@ == name@,
            !r.mic_enabled,
            !r.is_muted,
            r.id@.len() == 36,
    {
        Player {
            id: new_identifier(),
            name,
            mic_enabled: false,
            is_muted: false,
            joined_at: now_millis(),
        }
    }

    pub open spec fn entry(&self) -> MemberEntry {
        MemberEntry {
            id: self.id@,
            name: self.name@,
            mic_enabled: self.mic_enabled,
            is_muted: self.is_muted,
            joined_at: self.joined_at,
        }
    }

    /// A copy of the member.
    pub fn duplicate(&self) -> (r: Player)
        ensures
            r.entry() == self.entry(),
    {
        Player {
            id: self.id.clone(),
            name: self.name.clone(),
            mic_enabled: self.mic_enabled,
            is_muted: self.is_muted,
            joined_at: self.joined_at,
        }
    }
}

pub open spec fn members(v: Seq<Player>) -> Seq<MemberEntry> {
    v.map_values(|p: Player| p.entry())
}

/// Some member of `s` has id `id`.
pub open spec fn has_member(s: Seq<MemberEntry>, id: Seq<char>) -> bool {
    exists|i: int| 0 <= i < s.len() && s[i].id == id
}

/// No two members share an id.
pub open spec fn distinct_members(s: Seq<MemberEntry>) -> bool {
    forall|i: int, j: int| 0 <= i < j < s.len() ==> s[i].id != s[j].id
}

/// Index of the first member at or after `i` with id `id`, or the length.
pub open spec fn member_from(s: Seq<MemberEntry>, id: Seq<char>, i: int) -> int
    decreases s.len() - i,
{
    if 0 <= i < s.len() && s[i].id != id {
        member_from(s, id, i + 1)
    } else {
        i
    }
}

pub open spec fn member_index(s: Seq<MemberEntry>, id: Seq<char>) -> int {
    member_from(s, id, 0)
}

proof fn lemma_member_from(s: Seq<MemberEntry>, id: Seq<char>, i: int)
    requires
        0 <= i <= s.len(),
    ensures
        i <= member_from(s, id, i) <= s.len(),
        forall|k: int| i <= k < member_from(s, id, i) ==> s[k].id != id,
        member_from(s, id, i) < s.len() ==> s[member_from(s, id, i)].id == id,
    decreases s.len() - i,
{
    if i < s.len() && s[i].id != id {
        lemma_member_from(s, id, i + 1);
    }
}

/// Where member `id` stands in `s`, if present.
pub proof fn lemma_member_index(s: Seq<MemberEntry>, id: Seq<char>)
    ensures
        0 <= member_index(s, id) <= s.len(),
        member_index(s, id) < s.len() <==> has_member(s, id),
        member_index(s, id) < s.len() ==> s[member_index(s, id)].id == id,
{
    lemma_member_from(s, id, 0);
}

/// Adds member `e`, replacing the member with its id if there is one.
pub open spec fn put_member(s: Seq<MemberEntry>, e: MemberEntry) -> Seq<MemberEntry> {
    let p = member_index(s, e.id);
    if p < s.len() {
        s.update(p, e)
    } else {
        s.push(e)
    }
}

/// Removes member `id`, if present.
pub open spec fn drop_member(s: Seq<MemberEntry>, id: Seq<char>) -> Seq<MemberEntry> {
    let p = member_index(s, id);
    if p < s.len() {
        s.remove(p)
    } else {
        s
    }
}

proof fn lemma_put_member(s: Seq<MemberEntry>, e: MemberEntry)
    requires
        distinct_members(s),
    ensures
        distinct_members(put_member(s, e)),
{
    lemma_member_index(s, e.id);
    let p = member_index(s, e.id);
    if p >= s.len() {
        let t = s.push(e);
        assert forall|i: int, j: int| 0 <= i < j < t.len() implies t[i].id != t[j].id by {
            if j == s.len() {
                assert(t[i] == s[i]);
            }
        }
    }
}

proof fn lemma_drop_member(s: Seq<MemberEntry>, id: Seq<char>)
    requires
        distinct_members(s),
    ensures
        distinct_members(drop_member(s, id)),
        !has_member(drop_member(s, id), id),
{
    lemma_member_index(s, id);
    lemma_member_from(s, id, 0);
    let p = member_index(s, id);
    if p < s.len() {
        let t = s.remove(p);
        assert forall|i: int, j: int| 0 <= i < j < t.len() implies t[i].id != t[j].id by {
            let a = if i < p { i } else { i + 1 };
            let b = if j < p { j } else { j + 1 };
            assert(t[i] == s[a]);
            assert(t[j] == s[b]);
        }
        assert(!has_member(t, id)) by {
            if has_member(t, id) {
                let i = choose|i: int| 0 <= i < t.len() && t[i].id == id;
                if i < p {
                    assert(t[i] == s[i]);
                } else {
                    assert(t[i] == s[i + 1]);
                }
            }
        }
    }
}

/// Members ordered by join time, earliest first.
pub open spec fn sorted_by_join(s: Seq<MemberEntry>) -> bool {
    forall|i: int, j: int| 0 <= i < j < s.len() ==> s[i].joined_at <= s[j].joined_at
}

/// Inserting `e` at `k`, past every member that joined no later and before
/// the first that joined later, keeps the list sorted by join time.
proof fn lemma_insert_sorted(prev: Seq<MemberEntry>, e: MemberEntry, k: int)
    requires
        0 <= k <= prev.len(),
        sorted_by_join(prev),
        forall|a: int| 0 <= a < k ==> (#[trigger] prev[a]).joined_at <= e.joined_at,
        k < prev.len() ==> prev[k].joined_at > e.joined_at,
    ensures
        sorted_by_join(prev.insert(k, e)),
{
    let cur = prev.insert(k, e);
    assert forall|a: int, b: int| 0 <= a < b < cur.len() implies cur[a].joined_at <= cur[b].joined_at by {
        if b < k {
            assert(cur[a] == prev[a]);
            assert(cur[b] == prev[b]);
        } else if b == k {
            assert(cur[a] == prev[a]);
        } else if a < k {
            assert(cur[a] == prev[a]);
            assert(cur[b] == prev[b - 1]);
        } else if a == k {
            assert(cur[b] == prev[b - 1]);
            assert(prev[k].joined_at <= prev[b - 1].joined_at);
        } else {
            assert(cur[a] == prev[a - 1]);
            assert(cur[b] == prev[b - 1]);
        }
    }
}

/// Lobby names hold letters (CJK included), digits, `_`, `-` and spaces.
pub open spec fn name_char_allowed(c: char) -> bool {
    alnum(c) || c == '_' || c == '-' || c == ' '
}

/// Why a lobby name is refused, or `None` when it is accepted. The name is
/// judged without its leading and trailing white space.
pub open spec fn lobby_name_problem(name: Seq<char>) -> Option<Seq<char>> {
    let t = trimmed(name);
    if t.len() < 4 {
        Some("大厅名称至少需要 4 个字符"@)
    } else if t.len() > 32 {
        Some("大厅名称最多 32 个字符"@)
    } else if !(exists|i: int| 0 <= i < t.len() && alnum(#[trigger] t[i])) {
        Some("大厅名称必须包含至少一个字母或数字"@)
    } else if !(forall|i: int| 0 <= i < t.len() ==> name_char_allowed(#[trigger] t[i])) {
        Some("大厅名称只能包含中文、字母、数字、下划线、连字符和空格"@)
    } else {
        None
    }
}

/// Why a password is refused, or `None` when it is accepted. Its length is
/// counted in characters, without leading and trailing white space.
pub open spec fn password_problem(password: Seq<char>) -> Option<Seq<char>> {
    let t = trimmed(password);
    let n = t.len();
    if n < 8 {
        Some("密码至少需要 8 个字符"@)
    } else if n > 32 {
        Some("密码最多 32 个字符"@)
    } else if !(exists|i: int| 0 <= i < t.len() && alpha(#[trigger] t[i])) {
        Some("密码必须包含至少一个字母"@)
    } else if !(exists|i: int| 0 <= i < t.len() && numeric(#[trigger] t[i])) {
        Some("密码必须包含至少一个数字"@)
    } else {
        None
    }
}

/// The validation rules: a lobby name whose trimmed text is under 4 or
/// over 32 characters is refused, as is a password whose trimmed text is
/// under 8 or over 32 characters or lacks a letter or a digit, and a name
/// or password that is only white space. A name whose trimmed text has the
/// right length, a letter or digit, and otherwise only spaces, `_` or `-`
/// is accepted, spaces inside it included; so is a password of the right
/// length with a letter and a digit, white space inside it included.
pub proof fn lemma_validation_rules(name: Seq<char>, password: Seq<char>)
    ensures
        trimmed(name).len() < 4 || trimmed(name).len() > 32 ==> lobby_name_problem(name) is Some,
        !(exists|i: int| 0 <= i < trimmed(password).len() && alpha(#[trigger] trimmed(password)[i]))
            ==> password_problem(password) is Some,
        !(exists|i: int| 0 <= i < trimmed(password).len() && numeric(#[trigger] trimmed(password)[i]))
            ==> password_problem(password) is Some,
        trimmed(password).len() < 8 || trimmed(password).len() > 32 ==> password_problem(password) is Some,
        8 <= trimmed(password).len() <= 32
            && (exists|i: int| 0 <= i < trimmed(password).len() && alpha(#[trigger] trimmed(password)[i]))
            && (exists|i: int| 0 <= i < trimmed(password).len() && numeric(#[trigger] trimmed(password)[i]))
            ==> password_problem(password) is None,
        all_white(name) ==> lobby_name_problem(name) is Some,
        all_white(password) ==> password_problem(password) is Some,
        4 <= trimmed(name).len() <= 32 && (exists|i: int| 0 <= i < trimmed(name).len() && alnum(#[trigger] trimmed(name)[i]))
            && (forall|i: int| 0 <= i < trimmed(name).len() ==> name_char_allowed(#[trigger] trimmed(name)[i]))
            ==> lobby_name_problem(name) is None,
{
    lemma_trimmed_empty(name);
    lemma_trimmed_empty(password);
}

/// The error for a refused input, when `problem` says why.
pub open spec fn refused_as(r: Result<(), LobbyError>, problem: Option<Seq<char>>) -> bool {
    match problem {
        None => r is Ok,
        Some(m) => r matches Err(LobbyError::InvalidInput(x)) && x@ == m,
    }
}

/// The name of the overlay network a lobby runs on.
pub open spec fn network_name_of(lobby_name: Seq<char>) -> Seq<char> {
    "MCTier-"@ + lobby_name
}

/// The overlay address of the peer that hosts the rendezvous, by convention.
pub open spec fn rendezvous_address() -> Seq<char> {
    "10.126.126.1"@
}

/// What the tunnel is brought up with: network name, secret, and the
/// rendezvous peer to contact.
#[derive(Debug)]
pub struct NetworkCredentials {
    pub network_name: String,
    pub network_key: String,
    pub server_node: String,
}

/// The session manager: the current lobby, if any, and its roster.
pub struct LobbyManager {
    current_lobby: Option<Lobby>,
    players: Vec<Player>,
}

impl LobbyManager {
    pub closed spec fn roster(&self) -> Seq<MemberEntry> {
        members(self.players@)
    }

    pub closed spec fn in_lobby(&self) -> bool {
        self.current_lobby is Some
    }

    pub closed spec fn lobby(&self) -> Option<Lobby> {
        self.current_lobby
    }

    /// The roster never holds two members with one id.
    pub open spec fn wf(&self) -> bool {
        distinct_members(self.roster())
    }

    /// No lobby and an empty roster.
    pub fn new() -> (r: LobbyManager)
        ensures
            r.wf(),
            !r.in_lobby(),
            r.roster().len() == 0,
    {
        let r = LobbyManager { current_lobby: None, players: Vec::new() };
        assert(r.roster() =~= Seq::<MemberEntry>::empty());
        r
    }

    /// Rejects an input that is empty or only white space, naming the field.
    pub fn validate_input(input: &str, field_name: &str) -> (r: Result<(), LobbyError>)
        ensures
            r is Err <==> all_white(input@),
            r matches Err(e) ==> (e matches LobbyError::InvalidInput(m) && m@ == field_name@
                + "不能为空或仅包含空白字符"@),
    {
        proof {
            lemma_trimmed_empty(input@);
        }
        let t = trim(input);
        if t.unicode_len() == 0 {
            let mut m = String::from_str(field_name);
            m.append("不能为空或仅包含空白字符");
            return Err(LobbyError::InvalidInput(m));
        }
        Ok(())
    }

    /// Checks a lobby name: 4 to 32 characters once trimmed, at least one
    /// letter or digit, and otherwise only `_`, `-` and spaces.
    pub fn validate_lobby_name(name: &str) -> (r: Result<(), LobbyError>)
        ensures
            refused_as(r, lobby_name_problem(name@)),
    {
        let t = trim(name);
        let n = t.unicode_len();
        if n < 4 {
            return Err(LobbyError::InvalidInput(String::from_str("大厅名称至少需要 4 个字符")));
        }
        if n > 32 {
            return Err(LobbyError::InvalidInput(String::from_str("大厅名称最多 32 个字符")));
        }
        let mut has_alnum = false;
        let mut all_allowed = true;
        let mut i: usize = 0;
        while i < n
            invariant
                n == t@.len(),
                t@ == trimmed(name@),
                0 <= i <= n,
                has_alnum == exists|k: int| 0 <= k < i && alnum(#[trigger] t@[k]),
                all_allowed == forall|k: int| 0 <= k < i ==> name_char_allowed(#[trigger] t@[k]),
            decreases n - i,
        {
            let c = t.get_char(i);
            let a = is_alphanumeric(c);
            if a {
                has_alnum = true;
            }
            if !(a || c == '_' || c == '-' || c == ' ') {
                all_allowed = false;
            }
            assert(t@[i as int] == c);
            i = i + 1;
        }
        if !has_alnum {
            return Err(
                LobbyError::InvalidInput(String::from_str("大厅名称必须包含至少一个字母或数字")),
            );
        }
        if !all_allowed {
            return Err(
                LobbyError::InvalidInput(
                    String::from_str("大厅名称只能包含中文、字母、数字、下划线、连字符和空格"),
                ),
            );
        }
        Ok(())
    }

    /// Checks a password: 8 to 32 characters once trimmed, with at least
    /// one letter and one digit.
    pub fn validate_password(password: &str) -> (r: Result<(), LobbyError>)
        ensures
            refused_as(r, password_problem(password@)),
    {
        let t = trim(password);
        let n = t.unicode_len();
        if n < 8 {
            return Err(LobbyError::InvalidInput(String::from_str("密码至少需要 8 个字符")));
        }
        if n > 32 {
            return Err(LobbyError::InvalidInput(String::from_str("密码最多 32 个字符")));
        }
        let mut has_letter = false;
        let mut has_digit = false;
        let mut i: usize = 0;
        while i < n
            invariant
                n == t@.len(),
                t@ == trimmed(password@),
                0 <= i <= n,
                has_letter == exists|k: int| 0 <= k < i && alpha(#[trigger] t@[k]),
                has_digit == exists|k: int| 0 <= k < i && numeric(#[trigger] t@[k]),
            decreases n - i,
        {
            let c = t.get_char(i);
            if is_alphabetic(c) {
                has_letter = true;
            }
            if is_numeric(c) {
                has_digit = true;
            }
            assert(t@[i as int] == c);
            i = i + 1;
        }
        if !has_letter {
            return Err(LobbyError::InvalidInput(String::from_str("密码必须包含至少一个字母")));
        }
        if !has_digit {
            return Err(LobbyError::InvalidInput(String::from_str("密码必须包含至少一个数字")));
        }
        Ok(())
    }

    /// Everything checked before the tunnel is brought up for a create or a
    /// join: no lobby is current, then the lobby name, the password, the
    /// player name and the rendezvous node, in that order. On success, the
    /// credentials: the network named after the lobby, keyed by the
    /// password, contacting the given node.
    pub fn prepare_lobby(
        &self,
        name: &str,
        password: &str,
        player_name: &str,
        server_node: &str,
    ) -> (r: Result<NetworkCredentials, LobbyError>)
        ensures
            self.in_lobby() ==> r matches Err(LobbyError::AlreadyInLobby),
            !self.in_lobby() && lobby_name_problem(name@) is Some ==> (r matches Err(LobbyError::InvalidInput(m)) && Some(m@) == lobby_name_problem(name@)),
            !self.in_lobby() && lobby_name_problem(name@) is None && password_problem(password@) is Some ==> (r matches Err(LobbyError::InvalidInput(m)) && Some(m@) == password_problem(password@)),
            !self.in_lobby() && lobby_name_problem(name@) is None && password_problem(password@) is None && all_white(player_name@) ==> (r matches Err(LobbyError::InvalidInput(m)) && m@ == "玩家名称"@ + "不能为空或仅包含空白字符"@),
            !self.in_lobby() && lobby_name_problem(name@) is None && password_problem(password@) is None && !all_white(player_name@) && all_white(server_node@) ==> (r matches Err(LobbyError::InvalidInput(m)) && m@ == "服务器节点"@ + "不能为空或仅包含空白字符"@),
            r is Ok <==> (!self.in_lobby() && lobby_name_problem(name@) is None && password_problem(password@) is None && !all_white(player_name@) && !all_white(server_node@)),
            r matches Ok(c) ==> c.network_name@ == network_name_of(name@) && c.network_key@ == password@ && c.server_node@ == server_node@,
    {
        if self.current_lobby.is_some() {
            return Err(LobbyError::AlreadyInLobby);
        }
        LobbyManager::validate_lobby_name(name)?;
        LobbyManager::validate_password(password)?;
        LobbyManager::validate_input(player_name, "玩家名称")?;
        LobbyManager::validate_input(server_node, "服务器节点")?;
        let mut network_name = String::from_str("MCTier-");
        network_name.append(name);
        Ok(NetworkCredentials {
            network_name,
            network_key: String::from_str(password),
            server_node: String::from_str(server_node),
        })
    }

    /// Finishes a create once the tunnel bring-up has answered with
    /// `tunnel`: on an address, the lobby is made current with that address
    /// and the conventional rendezvous address, and `player` joins the
    /// roster; on an error, nothing changes and the error is reported as a
    /// network error.
    pub fn create_lobby(&mut self, name: String, player: Player, tunnel: Result<String, AppError>) -> (r: Result<Lobby, LobbyError>)
        requires
            old(self).wf(),
        ensures
            final(self).wf(),
            old(self).in_lobby() ==> (r matches Err(LobbyError::AlreadyInLobby)) && *final(self) == *old(self),
            !old(self).in_lobby() && tunnel is Err ==> (r matches Err(LobbyError::NetworkError(m)) && m@ == tunnel->Err_0.message()) && *final(self) == *old(self),
            !old(self).in_lobby() && tunnel is Ok ==> r is Ok,
            r matches Ok(l) ==> l.name@ == name@ && l.virtual_ip@ == tunnel->Ok_0@
                && l.creator_virtual_ip@ == rendezvous_address() && final(self).in_lobby()
                && l.id@.len() == 36 && final(self).lobby() == Some(l)
                && final(self).roster() == put_member(old(self).roster(), player.entry()),
    {
        if self.current_lobby.is_some() {
            return Err(LobbyError::AlreadyInLobby);
        }
        let virtual_ip = match tunnel {
            Ok(ip) => ip,
            Err(e) => return Err(LobbyError::NetworkError(e.to_string())),
        };
        let lobby = Lobby::new(name, virtual_ip, String::from_str("10.126.126.1"));
        self.current_lobby = Some(lobby.duplicate());
        self.add_player(player);
        Ok(lobby)
    }

    /// Finishes a join; it follows the same steps as a create.
    pub fn join_lobby(&mut self, name: String, player: Player, tunnel: Result<String, AppError>) -> (r: Result<Lobby, LobbyError>)
        requires
            old(self).wf(),
        ensures
            final(self).wf(),
            old(self).in_lobby() ==> (r matches Err(LobbyError::AlreadyInLobby)) && *final(self) == *old(self),
            !old(self).in_lobby() && tunnel is Err ==> (r matches Err(LobbyError::NetworkError(m)) && m@ == tunnel->Err_0.message()) && *final(self) == *old(self),
            !old(self).in_lobby() && tunnel is Ok ==> r is Ok,
            r matches Ok(l) ==> l.name@ == name@ && l.virtual_ip@ == tunnel->Ok_0@
                && l.creator_virtual_ip@ == rendezvous_address() && final(self).in_lobby()
                && l.id@.len() == 36 && final(self).lobby() == Some(l)
                && final(self).roster() == put_member(old(self).roster(), player.entry()),
    {
        self.create_lobby(name, player, tunnel)
    }

    /// Leaves the lobby: without one, `NotInLobby` and nothing changes;
    /// otherwise no lobby is current and the roster is empty.
    pub fn leave_lobby(&mut self) -> (r: Result<(), LobbyError>)
        requires
            old(self).wf(),
        ensures
            final(self).wf(),
            !old(self).in_lobby() ==> (r matches Err(LobbyError::NotInLobby)) && *final(self) == *old(self),
            old(self).in_lobby() ==> r is Ok && !final(self).in_lobby() && final(self).roster().len() == 0,
    {
        if self.current_lobby.is_none() {
            return Err(LobbyError::NotInLobby);
        }
        self.current_lobby = None;
        self.players.clear();
        assert(self.roster() =~= Seq::<MemberEntry>::empty());
        Ok(())
    }

    /// Index of member `id`, or the roster's length.
    fn find(&self, id: &str) -> (r: usize)
        ensures
            r == member_index(self.roster(), id@),
    {
        let ghost s = self.roster();
        let mut i: usize = 0;
        while i < self.players.len()
            invariant
                s == members(self.players@),
                0 <= i <= self.players.len(),
                member_index(s, id@) == member_from(s, id@, i as int),
            decreases self.players.len() - i,
        {
            assert(s[i as int].id == self.players[i as int].id@);
            if same_text(self.players[i].id.as_str(), id) {
                return i;
            }
            i = i + 1;
        }
        i
    }

    /// Adds a member, replacing the member with the same id if there is one.
    pub fn add_player(&mut self, player: Player)
        requires
            old(self).wf(),
        ensures
            final(self).wf(),
            final(self).roster() == put_member(old(self).roster(), player.entry()),
            final(self).lobby() == old(self).lobby(),
    {
        let ghost s = self.roster();
        proof {
            lemma_member_index(s, player.id@);
            lemma_put_member(s, player.entry());
        }
        let p = self.find(player.id.as_str());
        let ghost e = player.entry();
        if p < self.players.len() {
            self.players.set(p, player);
        } else {
            self.players.push(player);
        }
        assert(self.roster() =~= put_member(s, e));
    }

    /// Removes member `player_id`, returning it; `None` when absent.
    pub fn remove_player(&mut self, player_id: &str) -> (r: Option<Player>)
        requires
            old(self).wf(),
        ensures
            final(self).wf(),
            final(self).roster() == drop_member(old(self).roster(), player_id@),
            r is Some <==> has_member(old(self).roster(), player_id@),
            r matches Some(p) ==> p.entry() == old(self).roster()[member_index(old(self).roster(), player_id@)],
            !has_member(final(self).roster(), player_id@),
            final(self).lobby() == old(self).lobby(),
    {
        let ghost s = self.roster();
        proof {
            lemma_member_index(s, player_id@);
            lemma_drop_member(s, player_id@);
        }
        let p = self.find(player_id);
        if p < self.players.len() {
            let gone = self.players.remove(p);
            assert(self.roster() =~= s.remove(p as int));
            Some(gone)
        } else {
            None
        }
    }

    /// The members ordered by join time, earliest first; members that
    /// joined at the same time keep their roster order.
    pub fn get_players(&self) -> (r: Vec<Player>)
        ensures
            members(r@).to_multiset() == self.roster().to_multiset(),
            sorted_by_join(members(r@)),
    {
        let ghost s = self.roster();
        let mut out: Vec<Player> = Vec::new();
        let mut i: usize = 0;
        assert(members(out@) =~= s.take(0));
        while i < self.players.len()
            invariant
                s == members(self.players@),
                s.len() == self.players@.len(),
                0 <= i <= self.players.len(),
                out@.len() == i,
                sorted_by_join(members(out@)),
                members(out@).to_multiset() == s.take(i as int).to_multiset(),
            decreases self.players.len() - i,
        {
            let x = self.players[i].duplicate();
            assert(x.entry() == s[i as int]);
            let mut k: usize = 0;
            while k < out.len() && out[k].joined_at <= x.joined_at
                invariant
                    0 <= k <= out@.len(),
                    forall|a: int| 0 <= a < k ==> (#[trigger] out@[a]).joined_at <= x.joined_at,
                decreases out.len() - k,
            {
                k = k + 1;
            }
            let ghost prev = members(out@);
            let ghost e = x.entry();
            proof {
                assert forall|a: int| 0 <= a < k implies #[trigger] prev[a].joined_at <= e.joined_at by {
                    assert(prev[a] == out@[a].entry());
                }
                if k < out@.len() {
                    assert(prev[k as int] == out@[k as int].entry());
                }
            }
            out.insert(k, x);
            proof {
                assert(members(out@) =~= prev.insert(k as int, e));
                lemma_insert_sorted(prev, e, k as int);
                vstd::seq_lib::to_multiset_insert(prev, k as int, e);
                assert(s.take(i + 1) =~= s.take(i as int).push(e));
                vstd::seq_lib::to_multiset_build(s.take(i as int), e);
            }
            i = i + 1;
        }
        assert(s.take(i as int) =~= s);
        out
    }

    /// The number of members.
    pub fn get_player_count(&self) -> (r: usize)
        ensures
            r == self.roster().len(),
    {
        self.players.len()
    }

    /// Member `player_id`, if present.
    pub fn get_player(&self, player_id: &str) -> (r: Option<&Player>)
        requires
            self.wf(),
        ensures
            r is Some <==> has_member(self.roster(), player_id@),
            r matches Some(p) ==> p.entry() == self.roster()[member_index(self.roster(), player_id@)],
    {
        proof {
            lemma_member_index(self.roster(), player_id@);
        }
        let p = self.find(player_id);
        if p < self.players.len() {
            Some(&self.players[p])
        } else {
            None
        }
    }

    /// Sets the microphone flag of member `player_id`; `PlayerNotFound`
    /// naming it when absent.
    pub fn update_player_mic_status(&mut self, player_id: &str, mic_enabled: bool) -> (r: Result<(), LobbyError>)
        requires
            old(self).wf(),
        ensures
            final(self).wf(),
            r is Ok <==> has_member(old(self).roster(), player_id@),
            r matches Err(e) ==> (e matches LobbyError::PlayerNotFound(id) && id@ == player_id@) && *final(self) == *old(self),
            r is Ok ==> final(self).roster() == old(self).roster().update(
                member_index(old(self).roster(), player_id@),
                MemberEntry { mic_enabled, ..old(self).roster()[member_index(old(self).roster(), player_id@)] },
            ),
            final(self).lobby() == old(self).lobby(),
    {
        let ghost s = self.roster();
        proof {
            lemma_member_index(s, player_id@);
        }
        let p = self.find(player_id);
        if p >= self.players.len() {
            return Err(LobbyError::PlayerNotFound(String::from_str(player_id)));
        }
        let cur = self.players[p].duplicate();
        let updated = Player { mic_enabled, ..cur };
        self.players.set(p, updated);
        assert(self.roster() =~= s.update(p as int, MemberEntry { mic_enabled, ..s[p as int] }));
        proof {
            assert forall|i: int, j: int| 0 <= i < j < self.roster().len() implies self.roster()[i].id != self.roster()[j].id by {
                assert(self.roster()[i].id == s[i].id);
                assert(self.roster()[j].id == s[j].id);
            }
        }
        Ok(())
    }

    /// Sets the mute flag of member `player_id`; `PlayerNotFound` naming it
    /// when absent.
    pub fn update_player_mute_status(&mut self, player_id: &str, is_muted: bool) -> (r: Result<(), LobbyError>)
        requires
            old(self).wf(),
        ensures
            final(self).wf(),
            r is Ok <==> has_member(old(self).roster(), player_id@),
            r matches Err(e) ==> (e matches LobbyError::PlayerNotFound(id) && id@ == player_id@) && *final(self) == *old(self),
            r is Ok ==> final(self).roster() == old(self).roster().update(
                member_index(old(self).roster(), player_id@),
                MemberEntry { is_muted, ..old(self).roster()[member_index(old(self).roster(), player_id@)] },
            ),
            final(self).lobby() == old(self).lobby(),
    {
        let ghost s = self.roster();
        proof {
            lemma_member_index(s, player_id@);
        }
        let p = self.find(player_id);
        if p >= self.players.len() {
            return Err(LobbyError::PlayerNotFound(String::from_str(player_id)));
        }
        let cur = self.players[p].duplicate();
        let updated = Player { is_muted, ..cur };
        self.players.set(p, updated);
        assert(self.roster() =~= s.update(p as int, MemberEntry { is_muted, ..s[p as int] }));
        proof {
            assert forall|i: int, j: int| 0 <= i < j < self.roster().len() implies self.roster()[i].id != self.roster()[j].id by {
                assert(self.roster()[i].id == s[i].id);
                assert(self.roster()[j].id == s[j].id);
            }
        }
        Ok(())
    }

    /// The current lobby, if any.
    pub fn get_current_lobby(&self) -> (r: Option<&Lobby>)
        ensures
            r is Some <==> self.in_lobby(),
            r matches Some(l) ==> self.lobby() == Some(*l),
    {
        match &self.current_lobby {
            Some(l) => Some(l),
            None => None,
        }
    }

    pub fn is_in_lobby(&self) -> (r: bool)
        ensures
            r == self.in_lobby(),
    {
        self.current_lobby.is_some()
    }

    /// Empties the roster; the lobby stays.
    pub fn clear_players(&mut self)
        ensures
            final(self).wf(),
            final(self).roster().len() == 0,
            final(self).lobby() == old(self).lobby(),
    {
        self.players.clear();
        assert(self.roster() =~= Seq::<MemberEntry>::empty());
    }
}

impl Default for LobbyManager {
    fn default() -> (r: LobbyManager)
        ensures
            r.wf(),
            !r.in_lobby(),
            r.roster().len() == 0,
    {
        LobbyManager::new()
    }
}

} // verus!
