use lexi_client::builder::Builder;
use lexi_client::lexer::Lexer;
use lexi_client::token::Token;

#[test]
fn it_can_lex_bulk_strings() {
    let buf = Builder::new().add_bulk("vince").out();
    let mut lexer = Lexer::new(buf);
    let exps = vec![
        Token::BulkType,
        Token::Len("5".into()),
        Token::RetCar,
        Token::NewL,
        Token::Bulk("vince".into()),
        Token::RetCar,
        Token::NewL,
        Token::Eof,
    ];
    for exp in exps.iter() {
        let tok = lexer.next_token();
        assert_eq!(tok, *exp);
    }
}

#[test]
fn it_can_lex_arrays() {
    let buf = Builder::new()
        .add_arr(2)
        .add_bulk("vince")
        .add_bulk("is cool")
        .out();
    let mut lexer = Lexer::new(buf);
    let exps = vec![
        Token::ArrayType,
        Token::Len("2".into()),
        Token::RetCar,
        Token::NewL,
        Token::BulkType,
        Token::Len("5".into()),
        Token::RetCar,
        Token::NewL,
        Token::Bulk("vince".into()),
        Token::RetCar,
        Token::NewL,
        Token::BulkType,
        Token::Len("7".into()),
        Token::RetCar,
        Token::NewL,
        Token::Bulk("is cool".into()),
        Token::RetCar,
        Token::NewL,
        Token::Eof,
    ];
    for exp in exps.iter() {
        let tok = lexer.next_token();
        assert_eq!(tok, *exp);
    }
}

#[test]
fn it_can_lex_integers() {
    let buf = Builder::new().add_int(42069).out();
    let mut l = Lexer::new(buf);
    let t = vec![0x00, 0x00, 0x00, 0x00, 0x00, 0x00, 0xa4, 0x55];
    let exps = [Token::Int(t.into()), Token::RetCar, Token::NewL, Token::Eof];
    for exp in exps.iter() {
        let tok = l.next_token();
        assert_eq!(tok, *exp);
    }
}

#[test]
fn it_can_lex_negative_integers() {
    let buf = Builder::new().add_int(-1).out();
    let mut l = Lexer::new(buf);
    let t = vec![0xff, 0xff, 0xff, 0xff, 0xff, 0xff, 0xff, 0xff];
    let exps = [Token::Int(t.into()), Token::RetCar, Token::NewL, Token::Eof];
    for exp in exps.iter() {
        let tok = l.next_token();
        assert_eq!(tok, *exp);
    }
}

#[test]
fn it_marks_unrecognized_bytes_illegal() {
    let mut l = Lexer::new(vec![b'%']);
    assert_eq!(l.next_token(), Token::Illegal);
}

#[test]
fn it_marks_bad_numeric_literals_illegal() {
    let mut l = Lexer::new(b":12x\r\n".to_vec());
    let exps = [Token::Illegal, Token::RetCar, Token::NewL, Token::Eof];
    for exp in exps.iter() {
        let tok = l.next_token();
        assert_eq!(tok, *exp);
    }
}
