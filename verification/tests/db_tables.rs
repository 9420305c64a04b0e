use kijuku_db::attribute::{
    delete_all_media_attributes, delete_media_attribute, get_media_attribute, get_media_attributes, set_media_attribute,
};
use kijuku_db::bulk::{bulk_create_media, bulk_delete_media, bulk_update_media, BulkUpdateItem};
use kijuku_db::crud::{create_media, delete_media, get_media, update_media, MediaUpdateInput};
use kijuku_db::hash::{
    add_media_hash, add_media_hashes, delete_media_hash, delete_media_hashes, find_by_content_hash,
    find_duplicate_hashes, get_media_hash, get_media_hashes,
};
use kijuku_db::crud::{row_to_media_from_sqlrow, SqlParam};
use kijuku_db::error::KijukuError;
use kijuku_db::exec_local::query;
use kijuku_db::transfer::{verify_transfer, MediaBundle, TransferOptions, TransferReport};
use kijuku_db::transfer_flow::{transfer_start, transfer_step, TransferAction, TransferEvent};
use kijuku_db::types::{AttributeValueType, Media, MediaHashInput, MediaInput, MediaType, Tag};
use rusqlite::Connection;

/// The tables these tests touch, as the media database defines them.
fn create_tables(conn: &Connection) {
    conn.execute_batch(
        "PRAGMA foreign_keys = ON;
         CREATE TABLE media (
             id INTEGER PRIMARY KEY AUTOINCREMENT,
             uuid TEXT NOT NULL UNIQUE,
             title TEXT NOT NULL,
             title_id TEXT,
             path TEXT UNIQUE,
             media_type TEXT NOT NULL,
             thumbnail_path TEXT,
             artist TEXT,
             artist_id TEXT,
             description TEXT,
             file_size INTEGER,
             duration_sec INTEGER,
             page_count INTEGER,
             series TEXT,
             volume_number INTEGER,
             volume_text TEXT,
             volume_title TEXT,
             magazine TEXT,
             magazine_id TEXT,
             language TEXT,
             source TEXT,
             external_id TEXT,
             artist_en TEXT,
             title_en TEXT,
             chapters TEXT,
             extension TEXT,
             flag_exist INTEGER NOT NULL DEFAULT 0,
             created_at TEXT NOT NULL DEFAULT CURRENT_TIMESTAMP,
             updated_at TEXT NOT NULL DEFAULT CURRENT_TIMESTAMP,
             title_pron TEXT,
             artist_pron TEXT,
             series_pron TEXT
         );
         CREATE TABLE media_attributes (
             media_id INTEGER NOT NULL REFERENCES media(id) ON DELETE CASCADE,
             key TEXT NOT NULL,
             value TEXT,
             value_type TEXT NOT NULL DEFAULT 'string',
             PRIMARY KEY (media_id, key)
         );
         CREATE TABLE media_hashes (
             item_uuid TEXT NOT NULL REFERENCES media(uuid) ON DELETE CASCADE ON UPDATE CASCADE,
             filename TEXT NOT NULL DEFAULT '',
             time_range TEXT NOT NULL DEFAULT '',
             content_hash BLOB NOT NULL,
             alternative_of TEXT,
             embedding BLOB,
             created_at TEXT NOT NULL DEFAULT CURRENT_TIMESTAMP,
             updated_at TEXT NOT NULL DEFAULT CURRENT_TIMESTAMP,
             PRIMARY KEY (item_uuid, filename, time_range)
         );
         CREATE TABLE tags (
             id INTEGER PRIMARY KEY AUTOINCREMENT,
             name TEXT NOT NULL UNIQUE
         );
         CREATE TABLE media_tags (
             media_id INTEGER NOT NULL REFERENCES media(id) ON DELETE CASCADE,
             tag_id INTEGER NOT NULL REFERENCES tags(id) ON DELETE CASCADE,
             PRIMARY KEY (media_id, tag_id)
         );",
    )
    .unwrap();
}

fn setup_attributes() -> (Connection, i64) {
    let conn = Connection::open_in_memory().unwrap();
    create_tables(&conn);

    let media = create_media(
        &conn,
        &MediaInput {
            title: "テストメディア".to_string(),
            media_type: MediaType::Comic,
            ..Default::default()
        },
    )
    .unwrap();

    (conn, media.id)
}

fn setup_hashes() -> (Connection, String) {
    let conn = Connection::open_in_memory().unwrap();
    create_tables(&conn);
    let media = create_media(
        &conn,
        &MediaInput {
            title: "test".to_string(),
            media_type: MediaType::Comic,
            ..Default::default()
        },
    )
    .unwrap();
    (conn, media.uuid)
}

fn make_hash(item_uuid: &str, filename: &str, time_range: &str) -> MediaHashInput {
    MediaHashInput {
        item_uuid: item_uuid.to_string(),
        filename: filename.to_string(),
        time_range: time_range.to_string(),
        content_hash: vec![0u8; 32],
        alternative_of: None,
    }
}

#[test]
fn test_set_and_get_attribute() {
    let (conn, media_id) = setup_attributes();

    // 属性を設定
    set_media_attribute(&conn, media_id, "rating", Some("5"), None).unwrap();

    // 属性を取得
    let attr = get_media_attribute(&conn, media_id, "rating").unwrap();
    assert!(attr.is_some());

    let attr = attr.unwrap();
    assert_eq!(attr.media_id, media_id);
    assert_eq!(attr.key, "rating");
    assert_eq!(attr.value, Some("5".to_string()));
    assert_eq!(attr.value_type, AttributeValueType::String); // デフォルト
}

#[test]
fn test_get_nonexistent_attribute() {
    let (conn, media_id) = setup_attributes();

    // 存在しない属性を取得
    let attr = get_media_attribute(&conn, media_id, "nonexistent").unwrap();
    assert!(attr.is_none());
}

#[test]
fn test_attribute_value_types() {
    let (conn, media_id) = setup_attributes();

    // String型
    set_media_attribute(
        &conn,
        media_id,
        "str_attr",
        Some("hello"),
        Some(AttributeValueType::String),
    )
    .unwrap();

    // Integer型
    set_media_attribute(
        &conn,
        media_id,
        "int_attr",
        Some("42"),
        Some(AttributeValueType::Integer),
    )
    .unwrap();

    // Boolean型
    set_media_attribute(
        &conn,
        media_id,
        "bool_attr",
        Some("true"),
        Some(AttributeValueType::Boolean),
    )
    .unwrap();

    // 取得して型を確認
    let str_attr = get_media_attribute(&conn, media_id, "str_attr")
        .unwrap()
        .unwrap();
    assert_eq!(str_attr.value_type, AttributeValueType::String);

    let int_attr = get_media_attribute(&conn, media_id, "int_attr")
        .unwrap()
        .unwrap();
    assert_eq!(int_attr.value_type, AttributeValueType::Integer);

    let bool_attr = get_media_attribute(&conn, media_id, "bool_attr")
        .unwrap()
        .unwrap();
    assert_eq!(bool_attr.value_type, AttributeValueType::Boolean);
}

#[test]
fn test_attribute_with_none_value() {
    let (conn, media_id) = setup_attributes();

    // NULL値を設定
    set_media_attribute(&conn, media_id, "empty_attr", None, None).unwrap();

    let attr = get_media_attribute(&conn, media_id, "empty_attr")
        .unwrap()
        .unwrap();
    assert_eq!(attr.value, None);
}

#[test]
fn test_update_existing_attribute() {
    let (conn, media_id) = setup_attributes();

    // 初回設定
    set_media_attribute(&conn, media_id, "score", Some("80"), None).unwrap();

    // 更新（ON CONFLICT DO UPDATE）
    set_media_attribute(
        &conn,
        media_id,
        "score",
        Some("90"),
        Some(AttributeValueType::Integer),
    )
    .unwrap();

    let attr = get_media_attribute(&conn, media_id, "score")
        .unwrap()
        .unwrap();
    assert_eq!(attr.value, Some("90".to_string()));
    assert_eq!(attr.value_type, AttributeValueType::Integer);
}

#[test]
fn test_get_all_media_attributes() {
    let (conn, media_id) = setup_attributes();

    // 複数の属性を設定
    set_media_attribute(&conn, media_id, "attr_c", Some("c"), None).unwrap();
    set_media_attribute(&conn, media_id, "attr_a", Some("a"), None).unwrap();
    set_media_attribute(&conn, media_id, "attr_b", Some("b"), None).unwrap();

    // 全属性を取得（keyでソートされる）
    let attrs = get_media_attributes(&conn, media_id).unwrap();
    assert_eq!(attrs.len(), 3);
    assert_eq!(attrs[0].key, "attr_a");
    assert_eq!(attrs[1].key, "attr_b");
    assert_eq!(attrs[2].key, "attr_c");
}

#[test]
fn test_delete_media_attribute() {
    let (conn, media_id) = setup_attributes();

    set_media_attribute(&conn, media_id, "to_delete", Some("value"), None).unwrap();

    // 削除
    delete_media_attribute(&conn, media_id, "to_delete").unwrap();

    // 取得できないことを確認
    let attr = get_media_attribute(&conn, media_id, "to_delete").unwrap();
    assert!(attr.is_none());
}

#[test]
fn test_delete_nonexistent_attribute() {
    let (conn, media_id) = setup_attributes();

    // 存在しない属性の削除はエラーにならない
    let result = delete_media_attribute(&conn, media_id, "nonexistent");
    assert!(result.is_ok());
}

#[test]
fn test_delete_all_media_attributes() {
    let (conn, media_id) = setup_attributes();

    // 複数の属性を設定
    set_media_attribute(&conn, media_id, "attr1", Some("1"), None).unwrap();
    set_media_attribute(&conn, media_id, "attr2", Some("2"), None).unwrap();
    set_media_attribute(&conn, media_id, "attr3", Some("3"), None).unwrap();

    // 全削除
    delete_all_media_attributes(&conn, media_id).unwrap();

    // 全て削除されたことを確認
    let attrs = get_media_attributes(&conn, media_id).unwrap();
    assert_eq!(attrs.len(), 0);
}

#[test]
fn test_value_type_default_is_string() {
    let (conn, media_id) = setup_attributes();

    // value_type = None で設定
    set_media_attribute(&conn, media_id, "default_type", Some("test"), None).unwrap();

    let attr = get_media_attribute(&conn, media_id, "default_type")
        .unwrap()
        .unwrap();
    assert_eq!(attr.value_type, AttributeValueType::String);
}

#[test]
fn test_add_and_get_media_hash() {
    let (conn, uuid) = setup_hashes();
    let mut input = make_hash(&uuid, "001.jpg", "");
    input.content_hash = vec![1u8; 32];

    let hash = add_media_hash(&conn, &input).unwrap();
    assert_eq!(hash.item_uuid, uuid);
    assert_eq!(hash.filename, "001.jpg");
    assert_eq!(hash.content_hash, vec![1u8; 32]);

    let got = get_media_hash(&conn, &uuid, "001.jpg", "").unwrap().unwrap();
    assert_eq!(got.content_hash, vec![1u8; 32]);
}

#[test]
fn test_add_media_hashes_bulk() {
    let (conn, uuid) = setup_hashes();
    let inputs = vec![
        {
            let mut h = make_hash(&uuid, "001.jpg", "");
            h.content_hash = vec![1u8; 32];
            h
        },
        {
            let mut h = make_hash(&uuid, "002.jpg", "");
            h.content_hash = vec![2u8; 32];
            h
        },
    ];
    let results = add_media_hashes(&conn, &inputs).unwrap();
    assert_eq!(results.len(), 2);

    let all = get_media_hashes(&conn, &uuid).unwrap();
    assert_eq!(all.len(), 2);
}

#[test]
fn test_get_media_hashes_for_item() {
    let (conn, uuid) = setup_hashes();
    let mut h1 = make_hash(&uuid, "", "");
    h1.content_hash = vec![1u8; 32];
    let mut h2 = make_hash(&uuid, "001.jpg", "");
    h2.content_hash = vec![2u8; 32];
    add_media_hash(&conn, &h1).unwrap();
    add_media_hash(&conn, &h2).unwrap();

    let hashes = get_media_hashes(&conn, &uuid).unwrap();
    assert_eq!(hashes.len(), 2);
}

#[test]
fn test_find_by_content_hash() {
    let (conn, uuid) = setup_hashes();
    let mut input = make_hash(&uuid, "", "");
    input.content_hash = vec![0xABu8; 32];
    add_media_hash(&conn, &input).unwrap();

    let found = find_by_content_hash(&conn, &vec![0xABu8; 32]).unwrap();
    assert_eq!(found.len(), 1);
    assert_eq!(found[0].item_uuid, uuid);

    let not_found = find_by_content_hash(&conn, &vec![0xCDu8; 32]).unwrap();
    assert!(not_found.is_empty());
}

#[test]
fn test_delete_media_hash() {
    let (conn, uuid) = setup_hashes();
    let mut input = make_hash(&uuid, "001.jpg", "");
    input.content_hash = vec![1u8; 32];
    add_media_hash(&conn, &input).unwrap();

    delete_media_hash(&conn, &uuid, "001.jpg", "").unwrap();
    let got = get_media_hash(&conn, &uuid, "001.jpg", "").unwrap();
    assert!(got.is_none());
}

#[test]
fn test_delete_media_hash_cascade_alternatives() {
    let (conn, uuid) = setup_hashes();
    // original
    let mut orig = make_hash(&uuid, "001.jpg", "");
    orig.content_hash = vec![1u8; 32];
    add_media_hash(&conn, &orig).unwrap();
    // alternative (alternative_of = "001.jpg")
    let mut alt = make_hash(&uuid, "001.png", "");
    alt.content_hash = vec![2u8; 32];
    alt.alternative_of = Some("001.jpg".to_string());
    add_media_hash(&conn, &alt).unwrap();

    assert_eq!(get_media_hashes(&conn, &uuid).unwrap().len(), 2);

    // 原本を削除 → 代替も削除される
    delete_media_hash(&conn, &uuid, "001.jpg", "").unwrap();
    assert!(get_media_hashes(&conn, &uuid).unwrap().is_empty());
}

#[test]
fn test_delete_all_media_hashes() {
    let (conn, uuid) = setup_hashes();
    let mut h1 = make_hash(&uuid, "", "");
    h1.content_hash = vec![1u8; 32];
    let mut h2 = make_hash(&uuid, "001.jpg", "");
    h2.content_hash = vec![2u8; 32];
    add_media_hash(&conn, &h1).unwrap();
    add_media_hash(&conn, &h2).unwrap();

    delete_media_hashes(&conn, &uuid).unwrap();
    assert!(get_media_hashes(&conn, &uuid).unwrap().is_empty());
}

#[test]
fn test_find_duplicate_hashes() {
    let (conn, uuid1) = setup_hashes();
    // 2つ目のメディアを作成
    let media2 = create_media(
        &conn,
        &MediaInput {
            title: "test2".to_string(),
            media_type: MediaType::Music,
            ..Default::default()
        },
    )
    .unwrap();
    let uuid2 = media2.uuid;

    // 同じcontent_hashで2件
    let mut h1 = make_hash(&uuid1, "", "");
    h1.content_hash = vec![0xFFu8; 32];
    let mut h2 = make_hash(&uuid2, "", "");
    h2.content_hash = vec![0xFFu8; 32];
    add_media_hash(&conn, &h1).unwrap();
    add_media_hash(&conn, &h2).unwrap();

    // ユニークなhash
    let mut h3 = make_hash(&uuid1, "001.jpg", "");
    h3.content_hash = vec![0xAAu8; 32];
    add_media_hash(&conn, &h3).unwrap();

    let dupes = find_duplicate_hashes(&conn).unwrap();
    assert_eq!(dupes.len(), 1);
    assert_eq!(dupes[0].0, vec![0xFFu8; 32]);
    assert_eq!(dupes[0].1, 2);
}

#[test]
fn test_upsert_on_conflict() {
    let (conn, uuid) = setup_hashes();
    let mut input = make_hash(&uuid, "", "");
    input.content_hash = vec![1u8; 32];
    add_media_hash(&conn, &input).unwrap();

    // 同じPKで別のhash値を登録 → upsert
    let mut input2 = make_hash(&uuid, "", "");
    input2.content_hash = vec![2u8; 32];
    add_media_hash(&conn, &input2).unwrap();

    let got = get_media_hash(&conn, &uuid, "", "").unwrap().unwrap();
    assert_eq!(got.content_hash, vec![2u8; 32]);
    assert_eq!(get_media_hashes(&conn, &uuid).unwrap().len(), 1);
}

#[test]
fn test_delete_cascade_on_media_delete() {
    let (conn, uuid) = setup_hashes();
    let media_id = {
        let mut stmt = conn.prepare("SELECT id FROM media WHERE uuid = ?1").unwrap();
        stmt.query_row([&uuid], |row| row.get::<_, i64>(0)).unwrap()
    };

    let mut input = make_hash(&uuid, "", "");
    input.content_hash = vec![1u8; 32];
    add_media_hash(&conn, &input).unwrap();
    assert_eq!(get_media_hashes(&conn, &uuid).unwrap().len(), 1);

    // mediaを削除 → FK CASCADEでhashesも削除される
    delete_media(&conn, media_id).unwrap();
    assert!(get_media_hashes(&conn, &uuid).unwrap().is_empty());
}

#[test]
fn test_create_and_get_media() {
    let conn = Connection::open_in_memory().unwrap();
    create_tables(&conn);

    let input = MediaInput {
        title: "テストコミック".to_string(),
        media_type: MediaType::Comic,
        artist: Some("テスト作者".to_string()),
        ..Default::default()
    };

    let media = create_media(&conn, &input).unwrap();
    assert_eq!(media.title, "テストコミック");
    assert_eq!(media.media_type, MediaType::Comic);
    assert_eq!(media.artist, Some("テスト作者".to_string()));

    let fetched = get_media(&conn, media.id).unwrap();
    assert_eq!(fetched.title, media.title);
}

#[test]
fn test_update_media() {
    let conn = Connection::open_in_memory().unwrap();
    create_tables(&conn);

    let input = MediaInput {
        title: "元のタイトル".to_string(),
        media_type: MediaType::Comic,
        artist: Some("元の作者".to_string()),
        ..Default::default()
    };

    let media = create_media(&conn, &input).unwrap();

    // descriptionのみ更新（titleやartistは変更されない）
    // Option<Option<T>>: Some(Some(val)) で値を設定
    let update_input = MediaUpdateInput {
        description: Some(Some("説明追加".to_string())),
        ..Default::default()
    };

    update_media(&conn, media.id, &update_input).unwrap();

    let updated = get_media(&conn, media.id).unwrap();
    // titleは元のまま
    assert_eq!(updated.title, "元のタイトル");
    // artistも元のまま
    assert_eq!(updated.artist, Some("元の作者".to_string()));
    // descriptionのみ更新された
    assert_eq!(updated.description, Some("説明追加".to_string()));
}

#[test]
fn test_update_media_partial() {
    let conn = Connection::open_in_memory().unwrap();
    create_tables(&conn);

    let input = MediaInput {
        title: "テストタイトル".to_string(),
        media_type: MediaType::Comic,
        artist: Some("作者A".to_string()),
        series: Some("シリーズA".to_string()),
        ..Default::default()
    };

    let media = create_media(&conn, &input).unwrap();

    // titleのみ更新
    let update_input = MediaUpdateInput {
        title: Some("新しいタイトル".to_string()),
        ..Default::default()
    };

    update_media(&conn, media.id, &update_input).unwrap();

    let updated = get_media(&conn, media.id).unwrap();
    assert_eq!(updated.title, "新しいタイトル");
    // 他のフィールドは変更されていない
    assert_eq!(updated.artist, Some("作者A".to_string()));
    assert_eq!(updated.series, Some("シリーズA".to_string()));
    assert_eq!(updated.media_type, MediaType::Comic);
}

#[test]
fn test_update_media_empty_input() {
    let conn = Connection::open_in_memory().unwrap();
    create_tables(&conn);

    let input = MediaInput {
        title: "テスト".to_string(),
        media_type: MediaType::Comic,
        ..Default::default()
    };

    let media = create_media(&conn, &input).unwrap();

    // 空の更新はエラーにならず、何もしない（TypeScript SDKとの動作統一）
    let update_input = MediaUpdateInput::default();
    let result = update_media(&conn, media.id, &update_input);
    assert!(result.is_ok());

    // メディアの内容が変更されていないことを確認
    let fetched = get_media(&conn, media.id).unwrap();
    assert_eq!(fetched.title, "テスト");
    assert_eq!(fetched.media_type, MediaType::Comic);
}

#[test]
fn test_delete_media() {
    let conn = Connection::open_in_memory().unwrap();
    create_tables(&conn);

    let input = MediaInput {
        title: "削除テスト".to_string(),
        media_type: MediaType::Comic,
        ..Default::default()
    };

    let media = create_media(&conn, &input).unwrap();
    assert!(get_media(&conn, media.id).is_some());

    delete_media(&conn, media.id).unwrap();
    assert!(get_media(&conn, media.id).is_none());
}

#[test]
fn test_delete_nonexistent() {
    let conn = Connection::open_in_memory().unwrap();
    create_tables(&conn);

    let result = delete_media(&conn, 9999);
    assert!(result.is_err());
}

#[test]
fn test_volume_number_auto_calculation_integer() {
    let conn = Connection::open_in_memory().unwrap();
    create_tables(&conn);

    // 整数のvolume_textはvolume_numberに変換される
    let input = MediaInput {
        title: "テスト".to_string(),
        media_type: MediaType::Comic,
        volume_text: Some("5".to_string()),
        ..Default::default()
    };

    let media = create_media(&conn, &input).unwrap();
    assert_eq!(media.volume_number, Some(5));
    assert_eq!(media.volume_text, Some("5".to_string()));
}

#[test]
fn test_volume_number_auto_calculation_non_integer() {
    let conn = Connection::open_in_memory().unwrap();
    create_tables(&conn);

    // 非整数のvolume_textはvolume_numberがNone
    let input = MediaInput {
        title: "テスト".to_string(),
        media_type: MediaType::Comic,
        volume_text: Some("1.5".to_string()),
        ..Default::default()
    };

    let media = create_media(&conn, &input).unwrap();
    assert_eq!(media.volume_number, None);
    assert_eq!(media.volume_text, Some("1.5".to_string()));
}

#[test]
fn test_volume_number_auto_calculation_text() {
    let conn = Connection::open_in_memory().unwrap();
    create_tables(&conn);

    // テキストのvolume_textはvolume_numberがNone
    let input = MediaInput {
        title: "テスト".to_string(),
        media_type: MediaType::Comic,
        volume_text: Some("上巻".to_string()),
        ..Default::default()
    };

    let media = create_media(&conn, &input).unwrap();
    assert_eq!(media.volume_number, None);
    assert_eq!(media.volume_text, Some("上巻".to_string()));
}

#[test]
fn test_volume_number_auto_calculation_with_whitespace() {
    let conn = Connection::open_in_memory().unwrap();
    create_tables(&conn);

    // 前後にスペースがある整数はトリムされてvolume_numberに変換
    let input = MediaInput {
        title: "テスト".to_string(),
        media_type: MediaType::Comic,
        volume_text: Some(" 10 ".to_string()),
        ..Default::default()
    };

    let media = create_media(&conn, &input).unwrap();
    assert_eq!(media.volume_number, Some(10));
}

#[test]
fn test_volume_number_update_recalculation() {
    let conn = Connection::open_in_memory().unwrap();
    create_tables(&conn);

    let input = MediaInput {
        title: "テスト".to_string(),
        media_type: MediaType::Comic,
        volume_text: Some("1".to_string()),
        ..Default::default()
    };

    let media = create_media(&conn, &input).unwrap();
    assert_eq!(media.volume_number, Some(1));

    // volume_textを更新するとvolume_numberも再計算される
    // Option<Option<T>>: Some(Some(val)) で値を設定
    let update_input = MediaUpdateInput {
        volume_text: Some(Some("2".to_string())),
        ..Default::default()
    };
    update_media(&conn, media.id, &update_input).unwrap();

    let updated = get_media(&conn, media.id).unwrap();
    assert_eq!(updated.volume_number, Some(2));
    assert_eq!(updated.volume_text, Some("2".to_string()));
}

#[test]
fn test_update_media_set_null() {
    let conn = Connection::open_in_memory().unwrap();
    create_tables(&conn);

    // artistとdescriptionを持つメディアを作成
    let input = MediaInput {
        title: "テスト".to_string(),
        media_type: MediaType::Comic,
        artist: Some("作者名".to_string()),
        description: Some("説明文".to_string()),
        ..Default::default()
    };

    let media = create_media(&conn, &input).unwrap();
    assert_eq!(media.artist, Some("作者名".to_string()));
    assert_eq!(media.description, Some("説明文".to_string()));

    // artistをNULLに設定（Some(None)）、descriptionは更新しない（None）
    let update_input = MediaUpdateInput {
        artist: Some(None),  // NULLに設定
        // description: None - 更新しない
        ..Default::default()
    };
    update_media(&conn, media.id, &update_input).unwrap();

    let updated = get_media(&conn, media.id).unwrap();
    // artistがNULLになった
    assert_eq!(updated.artist, None);
    // descriptionは元のまま
    assert_eq!(updated.description, Some("説明文".to_string()));
}

#[test]
fn test_update_media_volume_text_to_null() {
    let conn = Connection::open_in_memory().unwrap();
    create_tables(&conn);

    let input = MediaInput {
        title: "テスト".to_string(),
        media_type: MediaType::Comic,
        volume_text: Some("5".to_string()),
        ..Default::default()
    };

    let media = create_media(&conn, &input).unwrap();
    assert_eq!(media.volume_number, Some(5));
    assert_eq!(media.volume_text, Some("5".to_string()));

    // volume_textをNULLに設定するとvolume_numberもNULLになる
    let update_input = MediaUpdateInput {
        volume_text: Some(None),  // NULLに設定
        ..Default::default()
    };
    update_media(&conn, media.id, &update_input).unwrap();

    let updated = get_media(&conn, media.id).unwrap();
    assert_eq!(updated.volume_number, None);
    assert_eq!(updated.volume_text, None);
}

#[test]
fn test_duplicate_path_error() {
    let conn = Connection::open_in_memory().unwrap();
    create_tables(&conn);

    let path = "/path/to/media.cbz";

    // 1つ目のメディアを作成
    let input1 = MediaInput {
        title: "メディア1".to_string(),
        media_type: MediaType::Comic,
        path: Some(path.to_string()),
        ..Default::default()
    };
    create_media(&conn, &input1).unwrap();

    // 同じpathで2つ目のメディアを作成しようとするとエラー
    let input2 = MediaInput {
        title: "メディア2".to_string(),
        media_type: MediaType::Comic,
        path: Some(path.to_string()),
        ..Default::default()
    };
    let result = create_media(&conn, &input2);
    assert!(result.is_err());
}

#[test]
fn test_create_media_with_manual_uuid() {
    let conn = Connection::open_in_memory().unwrap();
    create_tables(&conn);

    let manual_uuid = "550e8400-e29b-41d4-a716-446655440000".to_string();
    let input = MediaInput {
        title: "UUIDテスト".to_string(),
        media_type: MediaType::Comic,
        uuid: Some(manual_uuid.clone()),
        ..Default::default()
    };

    let media = create_media(&conn, &input).unwrap();
    assert_eq!(media.uuid, manual_uuid);
}

#[test]
fn test_create_media_auto_uuid() {
    let conn = Connection::open_in_memory().unwrap();
    create_tables(&conn);

    let input = MediaInput {
        title: "自動UUID".to_string(),
        media_type: MediaType::Comic,
        ..Default::default()
    };

    let media = create_media(&conn, &input).unwrap();
    // 自動生成されたUUIDがUUID v4形式であることを確認
    assert_eq!(media.uuid.len(), 36);
    assert_eq!(media.uuid.chars().filter(|&c| c == '-').count(), 4);
}

#[test]
fn test_update_media_uuid() {
    let conn = Connection::open_in_memory().unwrap();
    create_tables(&conn);

    let input = MediaInput {
        title: "UUID更新テスト".to_string(),
        media_type: MediaType::Comic,
        ..Default::default()
    };
    let media = create_media(&conn, &input).unwrap();
    let original_uuid = media.uuid.clone();

    let new_uuid = "aaaaaaaa-bbbb-cccc-dddd-eeeeeeeeeeee".to_string();
    let update_input = MediaUpdateInput {
        uuid: Some(Some(new_uuid.clone())),
        ..Default::default()
    };
    update_media(&conn, media.id, &update_input).unwrap();

    let updated = get_media(&conn, media.id).unwrap();
    assert_eq!(updated.uuid, new_uuid);
    assert_ne!(updated.uuid, original_uuid);
}

#[test]
fn test_duplicate_uuid_error() {
    let conn = Connection::open_in_memory().unwrap();
    create_tables(&conn);

    let uuid = "550e8400-e29b-41d4-a716-446655440000".to_string();

    let input1 = MediaInput {
        title: "メディア1".to_string(),
        media_type: MediaType::Comic,
        uuid: Some(uuid.clone()),
        ..Default::default()
    };
    create_media(&conn, &input1).unwrap();

    let input2 = MediaInput {
        title: "メディア2".to_string(),
        media_type: MediaType::Comic,
        uuid: Some(uuid.clone()),
        ..Default::default()
    };
    let result = create_media(&conn, &input2);
    assert!(result.is_err());
}

#[test]
fn test_bulk_create_media() {
    let conn = Connection::open_in_memory().unwrap();
    create_tables(&conn);

    let data_list = vec![
        MediaInput {
            title: "メディア1".to_string(),
            media_type: MediaType::Comic,
            ..Default::default()
        },
        MediaInput {
            title: "メディア2".to_string(),
            media_type: MediaType::Video,
            ..Default::default()
        },
        MediaInput {
            title: "メディア3".to_string(),
            media_type: MediaType::Music,
            ..Default::default()
        },
    ];

    let results = bulk_create_media(&conn, &data_list).unwrap();
    assert_eq!(results.len(), 3);
    assert_eq!(results[0].title, "メディア1");
    assert_eq!(results[1].title, "メディア2");
    assert_eq!(results[2].title, "メディア3");
}

#[test]
fn test_bulk_create_empty() {
    let conn = Connection::open_in_memory().unwrap();
    create_tables(&conn);

    let results = bulk_create_media(&conn, &[]).unwrap();
    assert_eq!(results.len(), 0);
}

#[test]
fn test_bulk_delete_media() {

    let conn = Connection::open_in_memory().unwrap();
    create_tables(&conn);

    // テスト用のメディアを作成
    let data_list = vec![
        MediaInput {
            title: "メディア1".to_string(),
            media_type: MediaType::Comic,
            ..Default::default()
        },
        MediaInput {
            title: "メディア2".to_string(),
            media_type: MediaType::Video,
            ..Default::default()
        },
        MediaInput {
            title: "メディア3".to_string(),
            media_type: MediaType::Music,
            ..Default::default()
        },
    ];

    let results = bulk_create_media(&conn, &data_list).unwrap();
    assert_eq!(results.len(), 3);

    // 最初の2つを一括削除
    let ids_to_delete = vec![results[0].id, results[1].id];
    bulk_delete_media(&conn, &ids_to_delete).unwrap();

    // 削除されたことを確認
    assert!(get_media(&conn, results[0].id).is_none());
    assert!(get_media(&conn, results[1].id).is_none());
    assert!(get_media(&conn, results[2].id).is_some());
}

#[test]
fn test_bulk_delete_empty() {
    let conn = Connection::open_in_memory().unwrap();
    create_tables(&conn);

    // 空のリストで削除してもエラーにならない
    bulk_delete_media(&conn, &[]).unwrap();
}

#[test]
fn test_bulk_update_media() {

    let conn = Connection::open_in_memory().unwrap();
    create_tables(&conn);

    // テスト用のメディアを作成
    let data_list = vec![
        MediaInput {
            title: "メディア1".to_string(),
            media_type: MediaType::Comic,
            ..Default::default()
        },
        MediaInput {
            title: "メディア2".to_string(),
            media_type: MediaType::Video,
            ..Default::default()
        },
    ];

    let results = bulk_create_media(&conn, &data_list).unwrap();
    assert_eq!(results.len(), 2);

    // 一括更新（部分更新: 指定したフィールドのみ更新）
    // Option<Option<T>>パターン: Some(Some(val))で値を設定
    let updates = vec![
        BulkUpdateItem {
            id: results[0].id,
            data: MediaUpdateInput {
                title: Some("更新後メディア1".to_string()),
                artist: Some(Some("アーティスト1".to_string())),
                ..Default::default()
            },
        },
        BulkUpdateItem {
            id: results[1].id,
            data: MediaUpdateInput {
                title: Some("更新後メディア2".to_string()),
                artist: Some(Some("アーティスト2".to_string())),
                ..Default::default()
            },
        },
    ];
    bulk_update_media(&conn, &updates).unwrap();

    // 更新されたことを確認
    let updated1 = get_media(&conn, results[0].id).unwrap();
    assert_eq!(updated1.title, "更新後メディア1");
    assert_eq!(updated1.artist, Some("アーティスト1".to_string()));
    // media_typeは元のまま
    assert_eq!(updated1.media_type, MediaType::Comic);

    let updated2 = get_media(&conn, results[1].id).unwrap();
    assert_eq!(updated2.title, "更新後メディア2");
    assert_eq!(updated2.artist, Some("アーティスト2".to_string()));
    // media_typeは元のまま
    assert_eq!(updated2.media_type, MediaType::Video);
}

#[test]
fn test_bulk_update_empty() {
    let conn = Connection::open_in_memory().unwrap();
    create_tables(&conn);

    // 空のリストで更新してもエラーにならない
    bulk_update_media(&conn, &[]).unwrap();
}

#[test]
fn test_bulk_delete_rollback_on_failure() {

    let conn = Connection::open_in_memory().unwrap();
    create_tables(&conn);

    // テスト用のメディアを作成
    let data_list = vec![
        MediaInput {
            title: "メディア1".to_string(),
            media_type: MediaType::Comic,
            ..Default::default()
        },
        MediaInput {
            title: "メディア2".to_string(),
            media_type: MediaType::Video,
            ..Default::default()
        },
    ];

    let results = bulk_create_media(&conn, &data_list).unwrap();
    assert_eq!(results.len(), 2);

    let id1 = results[0].id;
    let id2 = results[1].id;

    // 存在しないIDを含めて削除を試みる
    // 2番目は存在するが、3番目（9999）は存在しない
    let ids_to_delete = vec![id1, 9999];
    let result = bulk_delete_media(&conn, &ids_to_delete);

    // エラーが発生するはず
    assert!(result.is_err());

    // ロールバックされているので、id1も削除されていない
    assert!(get_media(&conn, id1).is_some());
    assert!(get_media(&conn, id2).is_some());
}

#[test]
fn test_bulk_update_rollback_on_failure() {

    let conn = Connection::open_in_memory().unwrap();
    create_tables(&conn);

    // テスト用のメディアを作成
    let data_list = vec![MediaInput {
        title: "元のタイトル".to_string(),
        media_type: MediaType::Comic,
        ..Default::default()
    }];

    let results = bulk_create_media(&conn, &data_list).unwrap();
    let id1 = results[0].id;

    // 1番目は有効、2番目は存在しないIDへの更新
    let updates = vec![
        BulkUpdateItem {
            id: id1,
            data: MediaUpdateInput {
                title: Some("更新後タイトル".to_string()),
                ..Default::default()
            },
        },
        BulkUpdateItem {
            id: 9999, // 存在しないID
            data: MediaUpdateInput {
                title: Some("存在しない".to_string()),
                ..Default::default()
            },
        },
    ];

    let result = bulk_update_media(&conn, &updates);

    // エラーが発生するはず
    assert!(result.is_err());

    // ロールバックされているので、id1の更新も取り消されている
    let media1 = get_media(&conn, id1).unwrap();
    assert_eq!(media1.title, "元のタイトル");
}

// ---- transfer between two databases ----

fn db_err(e: rusqlite::Error) -> KijukuError {
    KijukuError::Database(e.to_string())
}

fn tag_id_in(conn: &Connection, name: &str) -> Result<i64, KijukuError> {
    let found: Vec<i64> = {
        let mut st = conn.prepare("SELECT id FROM tags WHERE name = ?1").map_err(db_err)?;
        let rows = st.query_map([name], |r| r.get(0)).map_err(db_err)?;
        rows.collect::<Result<Vec<i64>, _>>().map_err(db_err)?
    };
    match found.first() {
        Some(id) => Ok(*id),
        None => conn.query_row("INSERT INTO tags (name) VALUES (?1) RETURNING id", [name], |r| r.get(0)).map_err(db_err),
    }
}

fn media_in(conn: &Connection, sql: &str, params: &[SqlParam]) -> Result<Vec<Media>, KijukuError> {
    query(conn, sql, params)?.iter().map(row_to_media_from_sqlrow).collect()
}

fn bundles_in(conn: &Connection, media: Vec<Media>) -> Result<Vec<MediaBundle>, KijukuError> {
    let mut out = Vec::new();
    for m in media {
        let mut st = conn
            .prepare("SELECT t.name FROM tags t JOIN media_tags mt ON mt.tag_id = t.id WHERE mt.media_id = ?1")
            .map_err(db_err)?;
        let names = st.query_map([m.id], |r| r.get(0)).map_err(db_err)?.collect::<Result<Vec<String>, _>>().map_err(db_err)?;
        out.push(MediaBundle {
            tag_names: names,
            attributes: get_media_attributes(conn, m.id)?,
            hashes: get_media_hashes(conn, &m.uuid)?,
            media: m,
        });
    }
    Ok(out)
}

fn tags_in(conn: &Connection) -> Result<Vec<Tag>, KijukuError> {
    query(conn, "SELECT id, name FROM tags ORDER BY id", &[])?
        .iter()
        .map(|row| Ok(Tag { id: row.get_int("id")?, name: row.get_text("name")? }))
        .collect()
}

fn contents_of(conn: &Connection) -> Result<(Vec<MediaBundle>, Vec<String>), KijukuError> {
    let media = media_in(conn, "SELECT * FROM media ORDER BY id", &[])?;
    Ok((bundles_in(conn, media)?, tags_in(conn)?.into_iter().map(|t| t.name).collect()))
}

fn carry_out(a: &TransferAction, src: &Connection, dst: &Connection) -> Result<Option<TransferEvent>, KijukuError> {
    Ok(match a {
        TransferAction::MigrateDest => Some(TransferEvent::Migrated),
        TransferAction::ReadSourceTags => Some(TransferEvent::SourceTags(tags_in(src)?)),
        TransferAction::GetOrCreateTag(name) => Some(TransferEvent::TagId(tag_id_in(dst, name)?)),
        TransferAction::ReadPage { offset, limit } => {
            let params = [SqlParam::Int(*limit as i64), SqlParam::Int(*offset as i64)];
            let page = media_in(src, "SELECT * FROM media ORDER BY id ASC LIMIT ?1 OFFSET ?2", &params)?;
            Some(TransferEvent::Page(bundles_in(src, page)?))
        }
        TransferAction::CreateMedia(inputs) => Some(TransferEvent::Created(bulk_create_media(dst, inputs)?)),
        TransferAction::LinkTag { media_id, tag_id } => {
            dst.execute("INSERT OR IGNORE INTO media_tags (media_id, tag_id) VALUES (?1, ?2)", [*media_id, *tag_id])
                .map_err(db_err)?;
            None
        }
        TransferAction::SetAttribute { media_id, key, value, value_type } => {
            set_media_attribute(dst, *media_id, key, value.as_deref(), Some(*value_type))?;
            None
        }
        TransferAction::AddHashes(inputs) => {
            add_media_hashes(dst, inputs)?;
            None
        }
        TransferAction::ReadBothForVerify => {
            let (source, source_tags) = contents_of(src)?;
            let (dest, dest_tags) = contents_of(dst)?;
            Some(TransferEvent::Compared { source, dest, source_tags, dest_tags })
        }
        TransferAction::Done(_) | TransferAction::Fail(_) => None,
    })
}

fn transfer(src: &Connection, dst: &Connection, opts: &TransferOptions) -> Result<TransferReport, KijukuError> {
    let (mut state, mut actions) = transfer_start();
    loop {
        let mut answer = None;
        for a in std::mem::take(&mut actions) {
            match a {
                TransferAction::Done(r) => return Ok(r),
                TransferAction::Fail(e) => return Err(e),
                other => match carry_out(&other, src, dst) {
                    Ok(ev) => answer = ev,
                    Err(e) => {
                        answer = Some(TransferEvent::Failed(e));
                        break;
                    }
                },
            }
        }
        let (next, acts) = transfer_step(state, answer.expect("an answer"), opts);
        state = next;
        actions = acts;
    }
}

fn verify(src: &Connection, dst: &Connection) -> Result<TransferReport, KijukuError> {
    let (source, source_tags) = contents_of(src)?;
    let (dest, dest_tags) = contents_of(dst)?;
    verify_transfer(&source, &dest, &source_tags, &dest_tags)
}

/// Two media items, two tags, three tag links, two attributes and one hash.
fn seed(db: &Connection) {
    let m1 = create_media(
        db,
        &MediaInput {
            title: "作品1".to_string(),
            media_type: MediaType::Comic,
            artist: Some("作家A".to_string()),
            volume_text: Some("3".to_string()),
            ..Default::default()
        },
    )
    .unwrap();
    let m2 = create_media(db, &MediaInput { title: "作品2".to_string(), media_type: MediaType::Video, ..Default::default() })
        .unwrap();
    let t1 = tag_id_in(db, "タグ1").unwrap();
    let t2 = tag_id_in(db, "タグ2").unwrap();
    for (m, t) in [(m1.id, t1), (m2.id, t1), (m1.id, t2)] {
        db.execute("INSERT INTO media_tags (media_id, tag_id) VALUES (?1, ?2)", [m, t]).unwrap();
    }
    set_media_attribute(db, m1.id, "rating", Some("5"), Some(AttributeValueType::Integer)).unwrap();
    set_media_attribute(db, m1.id, "note", Some("メモ"), Some(AttributeValueType::String)).unwrap();
    add_media_hash(
        db,
        &MediaHashInput {
            item_uuid: m1.uuid.clone(),
            filename: "001.jpg".to_string(),
            time_range: String::new(),
            content_hash: vec![0x11u8; 32],
            alternative_of: None,
        },
    )
    .unwrap();
}

fn source_pair() -> (Connection, Connection) {
    let source = Connection::open_in_memory().unwrap();
    let dest = Connection::open_in_memory().unwrap();
    create_tables(&source);
    create_tables(&dest);
    (source, dest)
}

#[test]
fn test_transfer_full_local_to_local() {
    let (source, dest) = source_pair();
    seed(&source);

    let report = transfer(&source, &dest, &TransferOptions::default()).unwrap();

    assert_eq!(report.media, 2);
    assert_eq!(report.tags, 2);
    assert_eq!(report.media_tags, 3);
    assert_eq!(report.attributes, 2);
    assert_eq!(report.hashes, 1);
    assert!(report.verified);
}

#[test]
fn test_transfer_with_small_chunk() {
    let (source, dest) = source_pair();
    seed(&source);

    let report = transfer(&source, &dest, &TransferOptions { chunk_size: 1, verbose: false }).unwrap();

    assert_eq!(report.media, 2);
    assert!(report.verified);
}

#[test]
fn test_verify_standalone_after_transfer() {
    let (source, dest) = source_pair();
    seed(&source);
    transfer(&source, &dest, &TransferOptions::default()).unwrap();

    let v = verify(&source, &dest).unwrap();
    assert!(v.verified);
    assert_eq!(v.media, 2);
    assert_eq!(v.hashes, 1);
}

#[test]
fn test_verify_fails_before_transfer() {
    let (source, dest) = source_pair();
    seed(&source);

    let res = verify(&source, &dest);
    assert!(res.is_err());
}

#[test]
fn transfer_of_an_empty_source_reports_nothing_moved() {
    let (source, dest) = source_pair();
    let report = transfer(&source, &dest, &TransferOptions { chunk_size: 0, verbose: false }).unwrap();
    assert_eq!((report.media, report.tags, report.media_tags, report.attributes, report.hashes), (0, 0, 0, 0, 0));
    assert!(report.verified);
}

#[test]
fn transfer_steps_follow_the_protocol() {
    let (state, acts) = transfer_start();
    assert!(matches!(acts[..], [TransferAction::MigrateDest]));
    let opts = TransferOptions { chunk_size: 2, verbose: false };
    // An answer that the phase does not wait for changes nothing.
    let (state, acts) = transfer_step(state, TransferEvent::TagId(7), &opts);
    assert!(acts.is_empty());
    let (state, acts) = transfer_step(state, TransferEvent::Migrated, &opts);
    assert!(matches!(acts[..], [TransferAction::ReadSourceTags]));
    let (state, acts) = transfer_step(state, TransferEvent::SourceTags(vec![]), &opts);
    assert!(matches!(acts[..], [TransferAction::ReadPage { offset: 0, limit: 2 }]));
    let (_, acts) = transfer_step(state, TransferEvent::Failed(KijukuError::Database("disk full".to_string())), &opts);
    match &acts[..] {
        [TransferAction::Fail(KijukuError::Database(m))] => assert_eq!(m, "disk full"),
        _ => panic!("expected the failure to be handed on"),
    }
}

#[test]
fn a_tag_missing_from_the_destination_fails_the_page() {
    let (_, acts) = transfer_start();
    assert_eq!(acts.len(), 1);
    let opts = TransferOptions::default();
    let (state, _) = transfer_start();
    let (state, _) = transfer_step(state, TransferEvent::Migrated, &opts);
    let (state, _) = transfer_step(state, TransferEvent::SourceTags(vec![]), &opts);
    let src = Connection::open_in_memory().unwrap();
    create_tables(&src);
    let m = create_media(&src, &MediaInput { title: "a".to_string(), media_type: MediaType::Comic, ..Default::default() })
        .unwrap();
    let source_id = m.id;
    let bundle = MediaBundle { media: m, tag_names: vec!["x".to_string()], attributes: vec![], hashes: vec![] };
    let (state, acts) = transfer_step(state, TransferEvent::Page(vec![bundle]), &opts);
    assert!(matches!(acts[..], [TransferAction::CreateMedia(_)]));
    let mut created = get_media(&src, source_id).unwrap();
    created.id = 40;
    let (_, acts) = transfer_step(state, TransferEvent::Created(vec![created]), &opts);
    match &acts[..] {
        [TransferAction::Fail(KijukuError::Other(msg))] => {
            assert_eq!(msg, &format!("media(id={}) のタグ 'x' に対応する dest タグがない", source_id))
        }
        _ => panic!("expected the page to fail"),
    }
}
