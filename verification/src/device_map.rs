//! Placement of model layers on devices, read from the command line.
//!
//! The placement is either one integer, the number of layers on the first
//! device, or one `ORD:NUM` argument for each device ordinal.

use vstd::prelude::*;

use crate::text::{
    chars_of, decimal, decimal_reads_back, decimal_string, is_digit, is_numeral, parse_usize, texts,
    unsigned_part, usize_of,
};

verus! {

/// A device ordinal and the number of layers placed on that device.
#[derive(Clone, Copy, Debug, PartialEq, Eq, Structural)]
pub struct DeviceLayer {
    pub ordinal: usize,
    pub layers: usize,
}

/// Where the layers of the model go.
#[derive(Debug, PartialEq, Eq)]
pub enum DeviceMap {
    /// Everything stays on the default device.
    Dummy,
    /// The listed devices take the listed numbers of layers.
    Layers(Vec<DeviceLayer>),
}

impl View for DeviceMap {
    type V = Option<Seq<DeviceLayer>>;

    open spec fn view(&self) -> Option<Seq<DeviceLayer>> {
        match self {
            DeviceMap::Dummy => None,
            DeviceMap::Layers(layers) => Some(layers@),
        }
    }
}

/// Why a list of device layer arguments is rejected.
#[derive(Debug, PartialEq, Eq)]
pub enum LayerError {
    /// The argument, which has no colon.
    Format(String),
    /// The side of a colon that is not a `usize`.
    Integer(String),
    /// The ordinal, which an earlier argument has used.
    DuplicateOrdinal(usize),
}

/// The mathematical form of a `LayerError`.
pub enum LayerFault {
    Format(Seq<char>),
    Integer(Seq<char>),
    DuplicateOrdinal(usize),
}

impl View for LayerError {
    type V = LayerFault;

    open spec fn view(&self) -> LayerFault {
        match self {
            LayerError::Format(layer) => LayerFault::Format(layer@),
            LayerError::Integer(part) => LayerFault::Integer(part@),
            LayerError::DuplicateOrdinal(ordinal) => LayerFault::DuplicateOrdinal(*ordinal),
        }
    }
}

/// What is said of a rejected list.
pub open spec fn fault_message(fault: LayerFault) -> Seq<char> {
    match fault {
        LayerFault::Format(layer) => "Expected layer to be of format ORD:NUM, got "@ + layer,
        LayerFault::Integer(part) => "Failed to parse "@ + part + " as integer."@,
        LayerFault::DuplicateOrdinal(ordinal) => "Duplicate ordinal "@ + decimal(ordinal as nat),
    }
}

impl LayerError {
    /// The message for the user.
    pub fn message(&self) -> (text: String)
        ensures
            text@ == fault_message(self@),
            self matches LayerError::Format(layer) ==> text@
                == "Expected layer to be of format ORD:NUM, got "@ + layer@,
            self matches LayerError::Integer(part) ==> text@ == "Failed to parse "@ + part@
                + " as integer."@,
            self matches LayerError::DuplicateOrdinal(ordinal) ==> text@ == "Duplicate ordinal "@
                + decimal(*ordinal as nat),
    {
        match self {
            LayerError::Format(layer) => {
                let mut text = "Expected layer to be of format ORD:NUM, got ".to_string();
                text.append(layer.as_str());
                text
            },
            LayerError::Integer(part) => {
                let mut text = "Failed to parse ".to_string();
                text.append(part.as_str());
                text.append(" as integer.");
                text
            },
            LayerError::DuplicateOrdinal(ordinal) => {
                let mut text = "Duplicate ordinal ".to_string();
                text.append(decimal_string(*ordinal).as_str());
                text
            },
        }
    }
}

/// What one `ORD:NUM` argument says. Only the first colon separates; the rest
/// belongs to the number of layers.
pub open spec fn layer_of(arg: Seq<char>) -> Result<DeviceLayer, LayerFault> {
    match arg.index_of_first(':') {
        None => Err(LayerFault::Format(arg)),
        Some(colon) => {
            let ord = arg.take(colon);
            let num = arg.skip(colon + 1);
            match (usize_of(ord), usize_of(num)) {
                (None, _) => Err(LayerFault::Integer(ord)),
                (Some(_), None) => Err(LayerFault::Integer(num)),
                (Some(ordinal), Some(layers)) => Ok(DeviceLayer { ordinal, layers }),
            }
        },
    }
}

/// Whether some entry of `mapping` has the ordinal `ordinal`.
pub open spec fn has_ordinal(mapping: Seq<DeviceLayer>, ordinal: usize) -> bool {
    exists|i: int| 0 <= i < mapping.len() && #[trigger] mapping[i].ordinal == ordinal
}

/// What a list of `ORD:NUM` arguments says, read from the left: the first
/// argument that cannot be added to the mapping decides.
pub open spec fn layers_of(args: Seq<Seq<char>>) -> Result<Seq<DeviceLayer>, LayerFault>
    decreases args.len(),
{
    if args.len() == 0 {
        Ok(Seq::empty())
    } else {
        match layers_of(args.drop_last()) {
            Err(fault) => Err(fault),
            Ok(mapping) => match layer_of(args.last()) {
                Err(fault) => Err(fault),
                Ok(layer) => if has_ordinal(mapping, layer.ordinal) {
                    Err(LayerFault::DuplicateOrdinal(layer.ordinal))
                } else {
                    Ok(mapping.push(layer))
                },
            },
        }
    }
}

/// What the whole option says: absent, a single integer, or `ORD:NUM` arguments.
pub open spec fn device_map_of(args: Option<Seq<Seq<char>>>) -> Result<
    Option<Seq<DeviceLayer>>,
    LayerFault,
> {
    match args {
        None => Ok(None),
        Some(args) => if args.len() == 1 && usize_of(args[0]) is Some {
            Ok(Some(seq![DeviceLayer { ordinal: 0, layers: usize_of(args[0])->0 }]))
        } else {
            match layers_of(args) {
                Err(fault) => Err(fault),
                Ok(mapping) => Ok(Some(mapping)),
            }
        },
    }
}

/// Reads one `ORD:NUM` argument.
pub fn parse_layer(arg: &str) -> (layer: Result<DeviceLayer, LayerError>)
    ensures
        match layer {
            Ok(layer) => layer_of(arg@) == Ok::<DeviceLayer, LayerFault>(layer),
            Err(error) => layer_of(arg@) == Err::<DeviceLayer, LayerFault>(error@),
        },
{
    let chars = chars_of(arg);
    proof {
        arg@.index_of_first_ensures(':');
    }
    let mut colon: usize = 0;
    while colon < chars.len() && chars[colon] != ':'
        invariant
            chars@ == arg@,
            colon <= chars.len(),
            forall|j: int| 0 <= j < colon ==> arg@[j] != ':',
        decreases chars.len() - colon,
    {
        colon += 1;
    }
    if colon == chars.len() {
        assert(!arg@.contains(':'));
        return Err(LayerError::Format(arg.to_string()));
    }
    assert(arg@[colon as int] == ':');
    assert(arg@.index_of_first(':') == Some(colon as int));
    let ord = arg.substring_char(0, colon);
    let num = arg.substring_char(colon + 1, chars.len());
    assert(ord@ =~= arg@.take(colon as int));
    assert(num@ =~= arg@.skip(colon + 1));
    match parse_usize(ord) {
        None => Err(LayerError::Integer(ord.to_string())),
        Some(ordinal) => match parse_usize(num) {
            None => Err(LayerError::Integer(num.to_string())),
            Some(layers) => Ok(DeviceLayer { ordinal, layers }),
        },
    }
}

fn ordinal_in_use(mapping: &Vec<DeviceLayer>, ordinal: usize) -> (used: bool)
    ensures
        used == has_ordinal(mapping@, ordinal),
{
    let mut i: usize = 0;
    while i < mapping.len()
        invariant
            i <= mapping.len(),
            forall|j: int| 0 <= j < i ==> (#[trigger] mapping@[j]).ordinal != ordinal,
        decreases mapping.len() - i,
    {
        if mapping[i].ordinal == ordinal {
            assert(mapping@[i as int].ordinal == ordinal);
            return true;
        }
        i += 1;
    }
    false
}

proof fn lemma_fault_persists(args: Seq<Seq<char>>, k: int)
    requires
        0 <= k <= args.len(),
        layers_of(args.take(k)) is Err,
    ensures
        layers_of(args) == layers_of(args.take(k)),
    decreases args.len(),
{
    if k == args.len() {
        assert(args.take(k) =~= args);
    } else {
        assert(args.drop_last().take(k) =~= args.take(k));
        lemma_fault_persists(args.drop_last(), k);
    }
}

/// Reads a list of `ORD:NUM` arguments.
pub fn parse_layers(args: &Vec<String>) -> (mapping: Result<Vec<DeviceLayer>, LayerError>)
    ensures
        match mapping {
            Ok(mapping) => layers_of(texts(args@)) == Ok::<Seq<DeviceLayer>, LayerFault>(mapping@),
            Err(error) => layers_of(texts(args@)) == Err::<Seq<DeviceLayer>, LayerFault>(error@),
        },
{
    let ghost all = texts(args@);
    let mut mapping: Vec<DeviceLayer> = Vec::new();
    let mut i: usize = 0;
    assert(mapping@ =~= Seq::<DeviceLayer>::empty());
    while i < args.len()
        invariant
            i <= args.len(),
            all == texts(args@),
            layers_of(all.take(i as int)) == Ok::<Seq<DeviceLayer>, LayerFault>(mapping@),
        decreases args.len() - i,
    {
        assert(all.take(i + 1).drop_last() =~= all.take(i as int));
        assert(all.take(i + 1).last() == args@[i as int]@);
        let layer = match parse_layer(args[i].as_str()) {
            Ok(layer) => layer,
            Err(error) => {
                proof {
                    lemma_fault_persists(all, i + 1);
                }
                return Err(error);
            },
        };
        if ordinal_in_use(&mapping, layer.ordinal) {
            proof {
                lemma_fault_persists(all, i + 1);
            }
            return Err(LayerError::DuplicateOrdinal(layer.ordinal));
        }
        mapping.push(layer);
        i += 1;
    }
    assert(all.take(i as int) =~= all);
    Ok(mapping)
}

/// Reads the device layer option.
pub fn device_map(num_device_layers: &Option<Vec<String>>) -> (map: Result<DeviceMap, LayerError>)
    ensures
        ({
            let args = match num_device_layers {
                None => None,
                Some(args) => Some(texts(args@)),
            };
            match map {
                Ok(map) => device_map_of(args) == Ok::<Option<Seq<DeviceLayer>>, LayerFault>(map@),
                Err(error) => device_map_of(args) == Err::<Option<Seq<DeviceLayer>>, LayerFault>(
                    error@,
                ),
            }
        }),
{
    match num_device_layers {
        None => Ok(DeviceMap::Dummy),
        Some(args) => {
            if args.len() == 1 {
                if let Some(layers) = parse_usize(args[0].as_str()) {
                    let mut mapping: Vec<DeviceLayer> = Vec::new();
                    mapping.push(DeviceLayer { ordinal: 0, layers });
                    assert(mapping@ =~= seq![DeviceLayer { ordinal: 0, layers }]);
                    return Ok(DeviceMap::Layers(mapping));
                }
            }
            match parse_layers(args) {
                Ok(mapping) => Ok(DeviceMap::Layers(mapping)),
                Err(error) => Err(error),
            }
        },
    }
}

/// Whether no two entries share an ordinal.
pub open spec fn ordinals_distinct(mapping: Seq<DeviceLayer>) -> bool {
    forall|i: int, j: int|
        0 <= i < j < mapping.len() ==> (#[trigger] mapping[i]).ordinal != (
        #[trigger] mapping[j]).ordinal
}

/// A list that is accepted has one entry for each argument, in the order of the
/// arguments, and no ordinal twice.
pub proof fn accepted_layers(args: Seq<Seq<char>>, mapping: Seq<DeviceLayer>)
    requires
        layers_of(args) == Ok::<Seq<DeviceLayer>, LayerFault>(mapping),
    ensures
        mapping.len() == args.len(),
        forall|i: int|
            0 <= i < args.len() ==> layer_of(#[trigger] args[i]) == Ok::<DeviceLayer, LayerFault>(
                mapping[i],
            ),
        ordinals_distinct(mapping),
    decreases args.len(),
{
    if args.len() > 0 {
        let before = layers_of(args.drop_last())->Ok_0;
        let layer = layer_of(args.last())->Ok_0;
        accepted_layers(args.drop_last(), before);
        assert(mapping == before.push(layer));
        assert forall|i: int| 0 <= i < args.len() implies layer_of(#[trigger] args[i]) == Ok::<
            DeviceLayer,
            LayerFault,
        >(mapping[i]) by {
            if i < args.len() - 1 {
                assert(args.drop_last()[i] == args[i]);
            }
        }
        assert forall|i: int, j: int| 0 <= i < j < mapping.len() implies (
        #[trigger] mapping[i]).ordinal != (#[trigger] mapping[j]).ordinal by {
            assert(before[i] == mapping[i]);
            if j < before.len() {
                assert(before[j] == mapping[j]);
            }
        }
    }
}

/// A list of readable arguments with distinct ordinals is accepted.
pub proof fn distinct_layers_are_accepted(args: Seq<Seq<char>>, mapping: Seq<DeviceLayer>)
    requires
        mapping.len() == args.len(),
        forall|i: int|
            0 <= i < args.len() ==> layer_of(#[trigger] args[i]) == Ok::<DeviceLayer, LayerFault>(
                mapping[i],
            ),
        ordinals_distinct(mapping),
    ensures
        layers_of(args) == Ok::<Seq<DeviceLayer>, LayerFault>(mapping),
    decreases args.len(),
{
    if args.len() == 0 {
        assert(mapping =~= Seq::<DeviceLayer>::empty());
    } else {
        let before = mapping.drop_last();
        assert forall|i: int| 0 <= i < args.drop_last().len() implies layer_of(
            #[trigger] args.drop_last()[i],
        ) == Ok::<DeviceLayer, LayerFault>(before[i]) by {
            assert(args[i] == args.drop_last()[i]);
        }
        distinct_layers_are_accepted(args.drop_last(), before);
        assert(args[args.len() - 1] == args.last());
        assert(before.push(mapping.last()) =~= mapping);
        assert(!has_ordinal(before, mapping.last().ordinal)) by {
            assert forall|i: int| 0 <= i < before.len() implies (
            #[trigger] before[i]).ordinal != mapping.last().ordinal by {
                assert(mapping[i] == before[i]);
                assert(mapping[mapping.len() - 1] == mapping.last());
            }
        }
    }
}

/// The first argument that cannot be accepted decides the error, whatever
/// follows it.
pub proof fn first_fault_decides(args: Seq<Seq<char>>, more: Seq<Seq<char>>)
    requires
        layers_of(args) is Err,
    ensures
        layers_of(args + more) == layers_of(args),
{
    assert((args + more).take(args.len() as int) =~= args);
    lemma_fault_persists(args + more, args.len() as int);
}

/// The `ORD:NUM` argument of an entry.
pub open spec fn layer_arg(layer: DeviceLayer) -> Seq<char> {
    decimal(layer.ordinal as nat) + seq![':'] + decimal(layer.layers as nat)
}

proof fn lemma_layer_arg(layer: DeviceLayer)
    ensures
        layer_of(layer_arg(layer)) == Ok::<DeviceLayer, LayerFault>(layer),
        usize_of(layer_arg(layer)) is None,
{
    let ord = decimal(layer.ordinal as nat);
    let num = decimal(layer.layers as nat);
    let arg = layer_arg(layer);
    decimal_reads_back(layer.ordinal);
    decimal_reads_back(layer.layers);
    assert(arg[ord.len() as int] == ':');
    assert forall|j: int| 0 <= j < ord.len() implies arg[j] != ':' by {
        assert(arg[j] == ord[j]);
        assert(is_digit(ord[j]));
    }
    arg.index_of_first_ensures(':');
    assert(arg.index_of_first(':') == Some(ord.len() as int));
    assert(arg.take(ord.len() as int) =~= ord);
    assert(arg.skip(ord.len() as int + 1) =~= num);
    assert(is_digit(ord[0]));
    assert(arg[0] == ord[0]);
    assert(!is_digit(arg[ord.len() as int]));
    assert(unsigned_part(arg) == arg);
    assert(!is_numeral(arg));
}

/// Any placement with distinct ordinals can be written as `ORD:NUM` arguments
/// and reads back as itself.
pub proof fn placement_reads_back(mapping: Seq<DeviceLayer>)
    requires
        ordinals_distinct(mapping),
    ensures
        device_map_of(Some(mapping.map_values(|layer: DeviceLayer| layer_arg(layer)))) == Ok::<
            Option<Seq<DeviceLayer>>,
            LayerFault,
        >(Some(mapping)),
{
    let args = mapping.map_values(|layer: DeviceLayer| layer_arg(layer));
    assert forall|i: int| 0 <= i < args.len() implies layer_of(#[trigger] args[i]) == Ok::<
        DeviceLayer,
        LayerFault,
    >(mapping[i]) by {
        lemma_layer_arg(mapping[i]);
    }
    distinct_layers_are_accepted(args, mapping);
    if args.len() == 1 {
        lemma_layer_arg(mapping[0]);
        assert(args[0] == layer_arg(mapping[0]));
    }
}

/// A single integer places that many layers on the first device.
pub proof fn single_integer_is_first_device(layers: usize)
    ensures
        device_map_of(Some(seq![decimal(layers as nat)])) == Ok::<
            Option<Seq<DeviceLayer>>,
            LayerFault,
        >(Some(seq![DeviceLayer { ordinal: 0, layers }])),
{
    decimal_reads_back(layers);
}

/// An argument is split at its first colon, and only there: what stands before
/// it is the ordinal and what stands after it is the number of layers. The
/// ordinal is read first. An argument without a colon is of the wrong format.
pub proof fn arguments_split_at_the_first_colon(ord: Seq<char>, num: Seq<char>)
    requires
        forall|i: int| 0 <= i < ord.len() ==> #[trigger] ord[i] != ':',
    ensures
        layer_of(ord) == Err::<DeviceLayer, LayerFault>(LayerFault::Format(ord)),
        ({
            let read = layer_of(ord + seq![':'] + num);
            &&& usize_of(ord) is None ==> read == Err::<DeviceLayer, LayerFault>(
                LayerFault::Integer(ord),
            )
            &&& usize_of(ord) is Some && usize_of(num) is None ==> read == Err::<
                DeviceLayer,
                LayerFault,
            >(LayerFault::Integer(num))
            &&& usize_of(ord) is Some && usize_of(num) is Some ==> read is Ok
                && read->Ok_0.ordinal == usize_of(ord)->0 && read->Ok_0.layers == usize_of(num)->0
        }),
{
    let arg = ord + seq![':'] + num;
    ord.index_of_first_ensures(':');
    arg.index_of_first_ensures(':');
    assert(arg[ord.len() as int] == ':');
    assert forall|j: int| 0 <= j < ord.len() implies arg[j] != ':' by {
        assert(arg[j] == ord[j]);
    }
    assert(arg.index_of_first(':') == Some(ord.len() as int));
    assert(arg.take(ord.len() as int) =~= ord);
    assert(arg.skip(ord.len() as int + 1) =~= num);
}

/// One more argument either adds its own entry behind the others, or is refused:
/// for what is wrong with it, or because an entry before it has its ordinal.
pub proof fn one_more_argument(args: Seq<Seq<char>>, mapping: Seq<DeviceLayer>, arg: Seq<char>)
    requires
        layers_of(args) == Ok::<Seq<DeviceLayer>, LayerFault>(mapping),
    ensures
        layer_of(arg) is Err ==> layers_of(args.push(arg)) == Err::<Seq<DeviceLayer>, LayerFault>(
            layer_of(arg)->Err_0,
        ),
        layer_of(arg) matches Ok(layer) ==> {
            let used = exists|i: int|
                0 <= i < mapping.len() && (#[trigger] mapping[i]).ordinal == layer.ordinal;
            &&& used ==> layers_of(args.push(arg)) == Err::<Seq<DeviceLayer>, LayerFault>(
                LayerFault::DuplicateOrdinal(layer.ordinal),
            )
            &&& !used ==> layers_of(args.push(arg)) == Ok::<Seq<DeviceLayer>, LayerFault>(
                mapping.push(layer),
            )
        },
{
    assert(args.push(arg).drop_last() =~= args);
}

/// No arguments make an empty placement.
pub proof fn no_arguments_no_entries()
    ensures
        layers_of(Seq::empty()) == Ok::<Seq<DeviceLayer>, LayerFault>(Seq::empty()),
{
}

/// Without the option nothing is placed. A lone integer is the number of layers
/// on the first device. Everything else is read as `ORD:NUM` arguments.
pub proof fn option_has_three_forms(args: Seq<Seq<char>>)
    ensures
        device_map_of(None) == Ok::<Option<Seq<DeviceLayer>>, LayerFault>(None),
        args.len() == 1 && usize_of(args[0]) is Some ==> {
            &&& device_map_of(Some(args)) matches Ok(Some(mapping))
            &&& mapping.len() == 1
            &&& mapping[0].ordinal == 0
            &&& mapping[0].layers == usize_of(args[0])->0
        },
        args.len() != 1 || usize_of(args[0]) is None ==> {
            &&& layers_of(args) is Err ==> device_map_of(Some(args)) == Err::<
                Option<Seq<DeviceLayer>>,
                LayerFault,
            >(layers_of(args)->Err_0)
            &&& layers_of(args) is Ok ==> device_map_of(Some(args)) == Ok::<
                Option<Seq<DeviceLayer>>,
                LayerFault,
            >(Some(layers_of(args)->Ok_0))
        },
{
}

/// What placements and errors show in specifications is what they hold.
pub proof fn placements_are_seen_as_they_are(map: DeviceMap, error: LayerError)
    ensures
        map@ is None <==> map is Dummy,
        map matches DeviceMap::Layers(layers) ==> map@ == Some(layers@),
        error matches LayerError::Format(layer) ==> error@ == LayerFault::Format(layer@),
        error matches LayerError::Integer(part) ==> error@ == LayerFault::Integer(part@),
        error matches LayerError::DuplicateOrdinal(ordinal) ==> error@
            == LayerFault::DuplicateOrdinal(ordinal),
{
}

} // verus!
