use enclaver::paths::{file_name, join, parent};

fn words(alphabet: &[char], len: usize) -> Vec<String> {
    let mut all = vec![String::new()];
    let mut last = all.clone();
    for _ in 0..len {
        let mut next = Vec::new();
        for word in &last {
            for c in alphabet {
                let mut longer = word.clone();
                longer.push(*c);
                next.push(longer);
            }
        }
        all.extend(next.iter().cloned());
        last = next;
    }
    all
}

#[test]
fn parent_and_file_name_agree_with_std() {
    for word in words(&['/', '.', 'a'], 8) {
        let path = std::path::Path::new(&word);
        let dir = path.parent().map(|p| p.to_str().unwrap().to_string());
        let name = path.file_name().map(|n| n.to_str().unwrap().to_string());
        assert_eq!(parent(&word), dir, "parent of {:?}", word);
        assert_eq!(file_name(&word), name, "file name of {:?}", word);
    }
}

#[test]
fn join_agrees_with_std() {
    let all = words(&['/', '.', 'a'], 4);
    for a in &all {
        for b in &all {
            let joined = std::path::Path::new(a).join(b);
            assert_eq!(join(a, b), joined.to_str().unwrap(), "{:?} and {:?}", a, b);
        }
    }
}
