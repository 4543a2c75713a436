//! Database schemas of the tables owned by the messaging plugin.
//!
//! Each table has a `CREATE TABLE IF NOT EXISTS` statement, safe to run on
//! every startup, applied in the order of [`table_names`].
use vstd::prelude::*;
use crate::text::{ascii_upper, ascii_upper_char, has_prefix, is_ascii_text, str_equal, upper_cased};

verus! {

/// `CREATE TABLE` statement of `messages`.
pub const MESSAGES_SQL: &'static str = "CREATE TABLE IF NOT EXISTS messages (
            id              TEXT        PRIMARY KEY,
            message_type    TEXT        NOT NULL,
            from_id         TEXT        NOT NULL,
            to_id           TEXT        NOT NULL,
            content         TEXT        NOT NULL,
            content_type    TEXT        NOT NULL DEFAULT 'text',
            status          TEXT        NOT NULL DEFAULT 'sent',
            reply_to        TEXT        REFERENCES messages(id) ON DELETE SET NULL,
            edited          BOOLEAN     NOT NULL DEFAULT FALSE,
            edited_at       TIMESTAMPTZ,
            timestamp       TIMESTAMPTZ NOT NULL DEFAULT CURRENT_TIMESTAMP
        )";

/// `CREATE TABLE` statement of `channels`.
pub const CHANNELS_SQL: &'static str = "CREATE TABLE IF NOT EXISTS channels (
            id              TEXT        PRIMARY KEY,
            name            TEXT        NOT NULL,
            description     TEXT        NOT NULL DEFAULT '',
            channel_type    TEXT        NOT NULL DEFAULT 'public',
            created_by      TEXT        NOT NULL,
            topic           TEXT        NOT NULL DEFAULT '',
            created_at      TIMESTAMPTZ NOT NULL DEFAULT CURRENT_TIMESTAMP
        )";

/// `CREATE TABLE` statement of `channel_members`.
pub const CHANNEL_MEMBERS_SQL: &'static str = "CREATE TABLE IF NOT EXISTS channel_members (
            channel_id      TEXT        NOT NULL REFERENCES channels(id) ON DELETE CASCADE,
            user_id         TEXT        NOT NULL,
            joined_at       TIMESTAMPTZ NOT NULL DEFAULT CURRENT_TIMESTAMP,
            PRIMARY KEY (channel_id, user_id)
        )";

/// `CREATE TABLE` statement of `read_receipts`.
pub const READ_RECEIPTS_SQL: &'static str = "CREATE TABLE IF NOT EXISTS read_receipts (
            message_id      TEXT        NOT NULL REFERENCES messages(id) ON DELETE CASCADE,
            reader_id       TEXT        NOT NULL,
            read_at         TIMESTAMPTZ NOT NULL DEFAULT CURRENT_TIMESTAMP,
            PRIMARY KEY (message_id, reader_id)
        )";

/// `CREATE TABLE` statement of `file_references`.
pub const FILE_REFERENCES_SQL: &'static str = "CREATE TABLE IF NOT EXISTS file_references (
            id              TEXT        PRIMARY KEY,
            filename        TEXT        NOT NULL,
            mime_type       TEXT        NOT NULL,
            size_bytes      BIGINT      NOT NULL,
            url             TEXT,
            checksum        TEXT,
            uploaded_by     TEXT        NOT NULL,
            uploaded_at     TIMESTAMPTZ NOT NULL DEFAULT CURRENT_TIMESTAMP
        )";

/// `CREATE TABLE` statement of `message_files`.
pub const MESSAGE_FILES_SQL: &'static str = "CREATE TABLE IF NOT EXISTS message_files (
            message_id      TEXT        NOT NULL REFERENCES messages(id) ON DELETE CASCADE,
            file_id         TEXT        NOT NULL REFERENCES file_references(id) ON DELETE CASCADE,
            PRIMARY KEY (message_id, file_id)
        )";

/// `CREATE TABLE` statement of `user_presence`.
pub const USER_PRESENCE_SQL: &'static str = "CREATE TABLE IF NOT EXISTS user_presence (
            user_id         TEXT        PRIMARY KEY,
            status          TEXT        NOT NULL DEFAULT 'offline',
            status_message  TEXT        NOT NULL DEFAULT '',
            last_seen       TIMESTAMPTZ NOT NULL DEFAULT CURRENT_TIMESTAMP,
            updated_at      TIMESTAMPTZ NOT NULL DEFAULT CURRENT_TIMESTAMP
        )";

/// `CREATE TABLE` statement of `message_reactions`.
pub const MESSAGE_REACTIONS_SQL: &'static str = "CREATE TABLE IF NOT EXISTS message_reactions (
            message_id      TEXT        NOT NULL REFERENCES messages(id) ON DELETE CASCADE,
            emoji           TEXT        NOT NULL,
            user_id         TEXT        NOT NULL,
            reacted_at      TIMESTAMPTZ NOT NULL DEFAULT CURRENT_TIMESTAMP,
            PRIMARY KEY (message_id, emoji, user_id)
        )";

/// Number of tables the messaging plugin manages.
pub const TABLE_COUNT: usize = 8;

/// Name of table `k` (`0 <= k < TABLE_COUNT`).
pub open spec fn table_name_at(k: int) -> Seq<char> {
    if k == 0 { "messages"@ }
    else if k == 1 { "channels"@ }
    else if k == 2 { "channel_members"@ }
    else if k == 3 { "read_receipts"@ }
    else if k == 4 { "file_references"@ }
    else if k == 5 { "message_files"@ }
    else if k == 6 { "user_presence"@ }
    else if k == 7 { "message_reactions"@ }
    else { Seq::empty() }
}

/// `CREATE TABLE` statement of table `k`.
pub open spec fn table_sql_at(k: int) -> Seq<char> {
    if k == 0 { MESSAGES_SQL@ }
    else if k == 1 { CHANNELS_SQL@ }
    else if k == 2 { CHANNEL_MEMBERS_SQL@ }
    else if k == 3 { READ_RECEIPTS_SQL@ }
    else if k == 4 { FILE_REFERENCES_SQL@ }
    else if k == 5 { MESSAGE_FILES_SQL@ }
    else if k == 6 { USER_PRESENCE_SQL@ }
    else if k == 7 { MESSAGE_REACTIONS_SQL@ }
    else { Seq::empty() }
}

/// Table `k` with its statement.
fn schema_entry(k: usize) -> (e: (&'static str, &'static str))
    requires
        k < TABLE_COUNT,
    ensures
        e.0@ == table_name_at(k as int),
        e.1@ == table_sql_at(k as int),
{
    match k {
        0 => ("messages", MESSAGES_SQL),
        1 => ("channels", CHANNELS_SQL),
        2 => ("channel_members", CHANNEL_MEMBERS_SQL),
        3 => ("read_receipts", READ_RECEIPTS_SQL),
        4 => ("file_references", FILE_REFERENCES_SQL),
        5 => ("message_files", MESSAGE_FILES_SQL),
        6 => ("user_presence", USER_PRESENCE_SQL),
        _ => ("message_reactions", MESSAGE_REACTIONS_SQL),
    }
}

/// `(table name, CREATE TABLE statement)` of every table, in order.
pub fn messaging_schemas() -> (r: Vec<(&'static str, &'static str)>)
    ensures
        r@.len() == TABLE_COUNT,
        forall|k: int| 0 <= k < TABLE_COUNT ==> (#[trigger] r@[k]).0@ == table_name_at(k) && r@[k].1@ == table_sql_at(k),
{
    let mut r: Vec<(&'static str, &'static str)> = Vec::new();
    let mut k: usize = 0;
    while k < TABLE_COUNT
        invariant
            k <= TABLE_COUNT,
            r@.len() == k,
            forall|m: int| 0 <= m < k ==> (#[trigger] r@[m]).0@ == table_name_at(m) && r@[m].1@ == table_sql_at(m),
        decreases TABLE_COUNT - k,
    {
        r.push(schema_entry(k));
        k = k + 1;
    }
    r
}

/// The ordered list of table names that the messaging plugin manages.
pub fn table_names() -> (r: Vec<&'static str>)
    ensures
        r@.len() == TABLE_COUNT,
        forall|k: int| 0 <= k < TABLE_COUNT ==> (#[trigger] r@[k])@ == table_name_at(k),
{
    let mut r: Vec<&'static str> = Vec::new();
    let mut k: usize = 0;
    while k < TABLE_COUNT
        invariant
            k <= TABLE_COUNT,
            r@.len() == k,
            forall|m: int| 0 <= m < k ==> (#[trigger] r@[m])@ == table_name_at(m),
        decreases TABLE_COUNT - k,
    {
        r.push(schema_entry(k).0);
        k = k + 1;
    }
    r
}

/// The `CREATE TABLE` statement of the named table, if the plugin owns it.
pub fn schema_for(table_name: &str) -> (r: Option<&'static str>)
    ensures
        r is None <==> forall|k: int| 0 <= k < TABLE_COUNT ==> table_name@ != #[trigger] table_name_at(k),
        r matches Some(sql) ==> exists|k: int|
            0 <= k < TABLE_COUNT && table_name@ == #[trigger] table_name_at(k) && sql@ == table_sql_at(k),
{
    let mut k: usize = 0;
    while k < TABLE_COUNT
        invariant
            k <= TABLE_COUNT,
            forall|m: int| 0 <= m < k ==> table_name@ != #[trigger] table_name_at(m),
        decreases TABLE_COUNT - k,
    {
        let (name, sql) = schema_entry(k);
        if str_equal(name, table_name) {
            return Some(sql);
        }
        k = k + 1;
    }
    None
}

/// The table names are pairwise distinct, so a name picks one statement.
pub proof fn lemma_table_names_distinct(a: int, b: int)
    requires
        0 <= a < TABLE_COUNT,
        0 <= b < TABLE_COUNT,
        a != b,
    ensures
        table_name_at(a) != table_name_at(b),
{
    reveal_strlit("messages");
    reveal_strlit("channels");
    reveal_strlit("channel_members");
    reveal_strlit("read_receipts");
    reveal_strlit("file_references");
    reveal_strlit("message_files");
    reveal_strlit("user_presence");
    reveal_strlit("message_reactions");
    if table_name_at(a) == table_name_at(b) {
        assert(table_name_at(a).len() == table_name_at(b).len());
        assert(table_name_at(a)[0] == table_name_at(b)[0]);
        assert(table_name_at(a)[table_name_at(a).len() - 1] == table_name_at(b)[table_name_at(b).len() - 1]);
        assert(table_name_at(a)[8] == table_name_at(b)[8]);
    }
}

/// Every statement creates its own table, and only if it does not exist
/// yet: it begins with `CREATE TABLE IF NOT EXISTS `, the table's name and
/// ` (`.
pub proof fn lemma_schema_creates_its_table(k: int)
    requires
        0 <= k < TABLE_COUNT,
    ensures
        has_prefix(table_sql_at(k), create_prefix(table_name_at(k))),
{
    reveal_strlit("CREATE TABLE IF NOT EXISTS ");
    reveal_strlit(" (");
    reveal_strlit("messages");
    reveal_strlit("channels");
    reveal_strlit("channel_members");
    reveal_strlit("read_receipts");
    reveal_strlit("file_references");
    reveal_strlit("message_files");
    reveal_strlit("user_presence");
    reveal_strlit("message_reactions");
    if k == 0 {
        reveal_strlit("CREATE TABLE IF NOT EXISTS messages (
            id              TEXT        PRIMARY KEY,
            message_type    TEXT        NOT NULL,
            from_id         TEXT        NOT NULL,
            to_id           TEXT        NOT NULL,
            content         TEXT        NOT NULL,
            content_type    TEXT        NOT NULL DEFAULT 'text',
            status          TEXT        NOT NULL DEFAULT 'sent',
            reply_to        TEXT        REFERENCES messages(id) ON DELETE SET NULL,
            edited          BOOLEAN     NOT NULL DEFAULT FALSE,
            edited_at       TIMESTAMPTZ,
            timestamp       TIMESTAMPTZ NOT NULL DEFAULT CURRENT_TIMESTAMP
        )");
        reveal_strlit("CREATE TABLE IF NOT EXISTS messages (");
        assert(table_sql_at(k).subrange(0, "CREATE TABLE IF NOT EXISTS messages ("@.len() as int) =~= "CREATE TABLE IF NOT EXISTS messages ("@);
        assert(create_prefix(table_name_at(k)) =~= "CREATE TABLE IF NOT EXISTS messages ("@);
    } else if k == 1 {
        reveal_strlit("CREATE TABLE IF NOT EXISTS channels (
            id              TEXT        PRIMARY KEY,
            name            TEXT        NOT NULL,
            description     TEXT        NOT NULL DEFAULT '',
            channel_type    TEXT        NOT NULL DEFAULT 'public',
            created_by      TEXT        NOT NULL,
            topic           TEXT        NOT NULL DEFAULT '',
            created_at      TIMESTAMPTZ NOT NULL DEFAULT CURRENT_TIMESTAMP
        )");
        reveal_strlit("CREATE TABLE IF NOT EXISTS channels (");
        assert(table_sql_at(k).subrange(0, "CREATE TABLE IF NOT EXISTS channels ("@.len() as int) =~= "CREATE TABLE IF NOT EXISTS channels ("@);
        assert(create_prefix(table_name_at(k)) =~= "CREATE TABLE IF NOT EXISTS channels ("@);
    } else if k == 2 {
        reveal_strlit("CREATE TABLE IF NOT EXISTS channel_members (
            channel_id      TEXT        NOT NULL REFERENCES channels(id) ON DELETE CASCADE,
            user_id         TEXT        NOT NULL,
            joined_at       TIMESTAMPTZ NOT NULL DEFAULT CURRENT_TIMESTAMP,
            PRIMARY KEY (channel_id, user_id)
        )");
        reveal_strlit("CREATE TABLE IF NOT EXISTS channel_members (");
        assert(table_sql_at(k).subrange(0, "CREATE TABLE IF NOT EXISTS channel_members ("@.len() as int) =~= "CREATE TABLE IF NOT EXISTS channel_members ("@);
        assert(create_prefix(table_name_at(k)) =~= "CREATE TABLE IF NOT EXISTS channel_members ("@);
    } else if k == 3 {
        reveal_strlit("CREATE TABLE IF NOT EXISTS read_receipts (
            message_id      TEXT        NOT NULL REFERENCES messages(id) ON DELETE CASCADE,
            reader_id       TEXT        NOT NULL,
            read_at         TIMESTAMPTZ NOT NULL DEFAULT CURRENT_TIMESTAMP,
            PRIMARY KEY (message_id, reader_id)
        )");
        reveal_strlit("CREATE TABLE IF NOT EXISTS read_receipts (");
        assert(table_sql_at(k).subrange(0, "CREATE TABLE IF NOT EXISTS read_receipts ("@.len() as int) =~= "CREATE TABLE IF NOT EXISTS read_receipts ("@);
        assert(create_prefix(table_name_at(k)) =~= "CREATE TABLE IF NOT EXISTS read_receipts ("@);
    } else if k == 4 {
        reveal_strlit("CREATE TABLE IF NOT EXISTS file_references (
            id              TEXT        PRIMARY KEY,
            filename        TEXT        NOT NULL,
            mime_type       TEXT        NOT NULL,
            size_bytes      BIGINT      NOT NULL,
            url             TEXT,
            checksum        TEXT,
            uploaded_by     TEXT        NOT NULL,
            uploaded_at     TIMESTAMPTZ NOT NULL DEFAULT CURRENT_TIMESTAMP
        )");
        reveal_strlit("CREATE TABLE IF NOT EXISTS file_references (");
        assert(table_sql_at(k).subrange(0, "CREATE TABLE IF NOT EXISTS file_references ("@.len() as int) =~= "CREATE TABLE IF NOT EXISTS file_references ("@);
        assert(create_prefix(table_name_at(k)) =~= "CREATE TABLE IF NOT EXISTS file_references ("@);
    } else if k == 5 {
        reveal_strlit("CREATE TABLE IF NOT EXISTS message_files (
            message_id      TEXT        NOT NULL REFERENCES messages(id) ON DELETE CASCADE,
            file_id         TEXT        NOT NULL REFERENCES file_references(id) ON DELETE CASCADE,
            PRIMARY KEY (message_id, file_id)
        )");
        reveal_strlit("CREATE TABLE IF NOT EXISTS message_files (");
        assert(table_sql_at(k).subrange(0, "CREATE TABLE IF NOT EXISTS message_files ("@.len() as int) =~= "CREATE TABLE IF NOT EXISTS message_files ("@);
        assert(create_prefix(table_name_at(k)) =~= "CREATE TABLE IF NOT EXISTS message_files ("@);
    } else if k == 6 {
        reveal_strlit("CREATE TABLE IF NOT EXISTS user_presence (
            user_id         TEXT        PRIMARY KEY,
            status          TEXT        NOT NULL DEFAULT 'offline',
            status_message  TEXT        NOT NULL DEFAULT '',
            last_seen       TIMESTAMPTZ NOT NULL DEFAULT CURRENT_TIMESTAMP,
            updated_at      TIMESTAMPTZ NOT NULL DEFAULT CURRENT_TIMESTAMP
        )");
        reveal_strlit("CREATE TABLE IF NOT EXISTS user_presence (");
        assert(table_sql_at(k).subrange(0, "CREATE TABLE IF NOT EXISTS user_presence ("@.len() as int) =~= "CREATE TABLE IF NOT EXISTS user_presence ("@);
        assert(create_prefix(table_name_at(k)) =~= "CREATE TABLE IF NOT EXISTS user_presence ("@);
    } else if k == 7 {
        reveal_strlit("CREATE TABLE IF NOT EXISTS message_reactions (
            message_id      TEXT        NOT NULL REFERENCES messages(id) ON DELETE CASCADE,
            emoji           TEXT        NOT NULL,
            user_id         TEXT        NOT NULL,
            reacted_at      TIMESTAMPTZ NOT NULL DEFAULT CURRENT_TIMESTAMP,
            PRIMARY KEY (message_id, emoji, user_id)
        )");
        reveal_strlit("CREATE TABLE IF NOT EXISTS message_reactions (");
        assert(table_sql_at(k).subrange(0, "CREATE TABLE IF NOT EXISTS message_reactions ("@.len() as int) =~= "CREATE TABLE IF NOT EXISTS message_reactions ("@);
        assert(create_prefix(table_name_at(k)) =~= "CREATE TABLE IF NOT EXISTS message_reactions ("@);
    }
}

/// `CREATE TABLE IF NOT EXISTS `, the name and ` (`.
pub open spec fn create_prefix(name: Seq<char>) -> Seq<char> {
    "CREATE TABLE IF NOT EXISTS "@ + name + " ("@
}

/// The words that open every statement, and the table names, are ASCII
/// text that ASCII upper-casing maps to the upper-case words.
proof fn lemma_prefix_text_is_ascii(k: int)
    requires
        0 <= k < TABLE_COUNT,
    ensures
        is_ascii_text("CREATE TABLE IF NOT EXISTS "@),
        ascii_upper("CREATE TABLE IF NOT EXISTS "@) == "CREATE TABLE IF NOT EXISTS "@,
        is_ascii_text(" ("@),
        ascii_upper(" ("@) == " ("@,
        is_ascii_text(table_name_at(k)),
{
    reveal_strlit("CREATE TABLE IF NOT EXISTS ");
    reveal_strlit(" (");
    reveal_strlit("messages");
    reveal_strlit("channels");
    reveal_strlit("channel_members");
    reveal_strlit("read_receipts");
    reveal_strlit("file_references");
    reveal_strlit("message_files");
    reveal_strlit("user_presence");
    reveal_strlit("message_reactions");
    assert(ascii_upper("CREATE TABLE IF NOT EXISTS "@) =~= "CREATE TABLE IF NOT EXISTS "@);
    assert(ascii_upper(" ("@) =~= " ("@);
}

/// Upper-cased, every statement begins with `CREATE TABLE IF NOT EXISTS `
/// followed by its upper-cased table name. `upper` and `upper_name` are
/// the statement and the name upper-cased as `str::to_uppercase` does to
/// ASCII text.
pub proof fn lemma_upper_schema_names_its_table(k: int, upper: Seq<char>, upper_name: Seq<char>)
    requires
        0 <= k < TABLE_COUNT,
        upper_cased(table_sql_at(k), upper),
        upper_cased(table_name_at(k), upper_name),
    ensures
        has_prefix(upper, "CREATE TABLE IF NOT EXISTS "@ + upper_name),
{
    let c = "CREATE TABLE IF NOT EXISTS "@;
    let name = table_name_at(k);
    let sql = table_sql_at(k);
    let p = create_prefix(name);
    lemma_schema_creates_its_table(k);
    lemma_prefix_text_is_ascii(k);
    assert(upper_name == ascii_upper(name));
    assert(is_ascii_text(p)) by {
        assert forall|i: int| 0 <= i < p.len() implies (#[trigger] p[i] as u32) < 128 by {
            if i < c.len() {
                assert(p[i] == c[i]);
            } else if i < c.len() + name.len() {
                assert(p[i] == name[i - c.len()]);
            } else {
                assert(p[i] == " ("@[i - c.len() - name.len()]);
            }
        }
    }
    assert(sql.take(p.len() as int) == p);
    assert(is_ascii_text(sql.take(p.len() as int)));
    assert(has_prefix(upper, ascii_upper(p)));
    assert(ascii_upper(p) =~= c + upper_name + " ("@) by {
        assert(ascii_upper(p) =~= ascii_upper(c) + ascii_upper(name) + ascii_upper(" ("@));
    }
    assert(upper.take((c + upper_name).len() as int) =~= c + upper_name) by {
        assert(upper.take(ascii_upper(p).len() as int) == ascii_upper(p));
        assert forall|i: int| 0 <= i < (c + upper_name).len() implies
            #[trigger] upper.take((c + upper_name).len() as int)[i] == (c + upper_name)[i] by {
            assert(upper.take(ascii_upper(p).len() as int)[i] == ascii_upper(p)[i]);
        }
    }
}

} // verus!
