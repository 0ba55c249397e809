use urlencoded_form::{decode, Error, Request, Route, ValOrVec};

fn groups(input: &str) -> Vec<(String, ValOrVec<String>)> {
    decode(input.as_bytes())
}

fn lookup(gs: &[(String, ValOrVec<String>)], key: &str) -> Option<ValOrVec<String>> {
    gs.iter().find(|g| g.0 == key).map(|g| g.1.clone())
}

fn scalar(gs: &[(String, ValOrVec<String>)], key: &str, req: Request) -> Result<String, Error> {
    match lookup(gs, key).expect("key present").dispatch(req)? {
        Route::Forward(v) => Ok(v),
        other => panic!("not a scalar route: {:?}", other),
    }
}

fn elements(gs: &[(String, ValOrVec<String>)], key: &str) -> Result<Vec<String>, Error> {
    match lookup(gs, key).expect("key present").dispatch(Request::Sequence)? {
        Route::Elements(l) => Ok(l),
        other => panic!("not a sequence route: {:?}", other),
    }
}

fn first_last(input: &str, req: Request) -> Vec<(String, i32)> {
    groups(input)
        .into_iter()
        .map(|(k, v)| match v.dispatch(req).unwrap() {
            Route::Forward(s) => (k, s.parse::<i32>().unwrap()),
            other => panic!("unexpected {:?}", other),
        })
        .collect()
}

#[test]
fn deserialize_newtype_i32() {
    let gs = groups("field=11");
    assert_eq!(gs.len(), 1);
    let v = scalar(&gs, "field", Request::NewtypeStruct).unwrap();
    assert_eq!(v.parse::<i32>(), Ok(11));
}

#[test]
fn deserialize_bytes() {
    let result = vec![("first".to_owned(), 23), ("last".to_owned(), 42)];
    let gs: Vec<(String, i32)> = decode(b"first=23&last=42")
        .into_iter()
        .map(|(k, v)| (k, v.into_val().unwrap().parse().unwrap()))
        .collect();
    assert_eq!(gs, result);
}

#[test]
fn deserialize_str() {
    let result = vec![("first".to_owned(), 23), ("last".to_owned(), 42)];
    assert_eq!(first_last("first=23&last=42", Request::I32), result);
}

#[test]
fn deserialize_borrowed_str() {
    let result = vec![("first", 23), ("last", 42)];
    let got = first_last("first=23&last=42", Request::I32);
    let got: Vec<(&str, i32)> = got.iter().map(|(k, v)| (k.as_str(), *v)).collect();
    assert_eq!(got, result);
}

#[test]
fn deserialize_reader() {
    let result = vec![("first".to_owned(), 23), ("last".to_owned(), 42)];
    let bytes: &[u8] = b"first=23&last=42";
    let got: Vec<(String, i32)> = decode(bytes)
        .into_iter()
        .map(|(k, v)| (k, v.into_val().unwrap().parse().unwrap()))
        .collect();
    assert_eq!(got, result);
}

#[test]
fn deserialize_option() {
    let result = vec![("first".to_owned(), Some(23)), ("last".to_owned(), Some(42))];
    let got: Vec<(String, Option<i32>)> = groups("first=23&last=42")
        .into_iter()
        .map(|(k, v)| match v.dispatch(Request::Option).unwrap() {
            Route::Forward(s) => (k, Some(s.parse::<i32>().unwrap())),
            other => panic!("unexpected {:?}", other),
        })
        .collect();
    assert_eq!(got, result);
}

#[test]
fn deserialize_unit() {
    assert!(groups("").is_empty());
    assert!(groups("&").is_empty());
    assert!(groups("&&").is_empty());
    assert!(!groups("first=23").is_empty());
}

#[test]
fn deserialize_unit_enum() {
    let gs = groups("one=A&two=B&three=C");
    assert_eq!(gs.len(), 3);
    assert_eq!(scalar(&gs, "one", Request::Enum), Ok("A".to_owned()));
    assert_eq!(scalar(&gs, "two", Request::Enum), Ok("B".to_owned()));
    assert_eq!(scalar(&gs, "three", Request::Enum), Ok("C".to_owned()));
}

#[test]
fn deserialize_unit_type() {
    assert!(groups("").is_empty());
}

#[test]
fn deserialize_struct() {
    for input in ["a=10&b=Hello", "b=Hello&a=10"] {
        let gs = groups(input);
        assert_eq!(scalar(&gs, "a", Request::U64).unwrap().parse::<usize>(), Ok(10));
        assert_eq!(scalar(&gs, "b", Request::Str), Ok("Hello".to_owned()));
        assert!(lookup(&gs, "c").is_none());
    }
}

#[test]
fn deserialize_list_of_str() {
    let gs = groups("a[]=a&a[]=b");
    let err = scalar(&gs, "a", Request::Str).unwrap_err();
    assert!(err.message().contains("unsupported"));

    assert_eq!(gs.len(), 1);
    assert_eq!(gs[0].0, "a");
    assert_eq!(elements(&gs, "a"), Ok(vec!["a".to_owned(), "b".to_owned()]));
}

#[test]
fn deserialize_multiple_lists() {
    for input in [
        "xs[]=true&xs[]=false&ys[]=3&ys[]=2&ys[]=1",
        "ys[]=3&xs[]=true&ys[]=2&xs[]=false&ys[]=1",
    ] {
        let gs = groups(input);
        let xs: Vec<bool> = elements(&gs, "xs").unwrap().iter().map(|s| s.parse().unwrap()).collect();
        let ys: Vec<u32> = elements(&gs, "ys").unwrap().iter().map(|s| s.parse().unwrap()).collect();
        assert_eq!(xs, vec![true, false]);
        assert_eq!(ys, vec![3, 2, 1]);
    }
}

#[test]
fn deserialize_with_serde_attributes() {
    let gs = groups("xs[]=true&xs[]=false&def=3&flag=true");
    let xs: Vec<bool> = elements(&gs, "xs").unwrap().iter().map(|s| s.parse().unwrap()).collect();
    assert_eq!(xs, vec![true, false]);
    assert_eq!(scalar(&gs, "def", Request::Option).unwrap().parse::<u8>(), Ok(3));
    assert_eq!(scalar(&gs, "flag", Request::Bool).unwrap().parse::<bool>(), Ok(true));

    let empty = groups("");
    assert!(lookup(&empty, "xs").is_none());
    assert!(lookup(&empty, "def").is_none());
    assert!(lookup(&empty, "flag").is_none());
}

#[test]
fn deserialize_nested_list() {
    let gs = groups("a=b");
    let outer = elements(&gs, "a").unwrap();
    assert_eq!(outer, vec!["b".to_owned()]);
    let inner = match ValOrVec::Val(outer[0].clone()).dispatch(Request::Sequence).unwrap() {
        Route::Elements(l) => l,
        other => panic!("unexpected {:?}", other),
    };
    let parsed: Result<Vec<bool>, _> = inner.iter().map(|s| s.parse::<bool>()).collect();
    assert!(parsed.is_err());
}

#[test]
fn deserialize_list_of_option() {
    let gs = groups("list[]=10&list[]=100");
    let list: Vec<Option<i32>> = elements(&gs, "list").unwrap().iter().map(|s| Some(s.parse().unwrap())).collect();
    assert_eq!(gs[0].0, "list");
    assert_eq!(list, vec![Some(10), Some(100)]);
}

#[test]
fn deserialize_list_of_newtype() {
    let gs = groups("list[]=test");
    assert_eq!(gs[0].0, "list");
    assert_eq!(elements(&gs, "list"), Ok(vec!["test".to_owned()]));
}

#[test]
fn deserialize_list_of_enum() {
    let gs = groups("item[]=A&item[]=B&item[]=C");
    assert_eq!(gs[0].0, "item");
    assert_eq!(
        elements(&gs, "item"),
        Ok(vec!["A".to_owned(), "B".to_owned(), "C".to_owned()])
    );
}

#[test]
fn deserialize_newstruct() {
    let gs = groups("list[]=hello&list[]=world");
    assert_eq!(elements(&gs, "list"), Ok(vec!["hello".to_owned(), "world".to_owned()]));
}

#[test]
fn deserialize_numlist() {
    let gs = groups("list[]=1&list[]=2&list[]=3&list[]=4");
    let list: Vec<u8> = elements(&gs, "list").unwrap().iter().map(|s| s.parse().unwrap()).collect();
    assert_eq!(list, vec![1, 2, 3, 4]);
}
